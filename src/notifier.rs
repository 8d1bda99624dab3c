//! Notification delivery decisions: which channel to try next, and the exact
//! text handed to it. Running the channels is left to the caller.

use vstd::prelude::*;
use crate::config::Config;
use crate::detector::{AlertLevel, Anomaly};
use crate::text::{chars_of, decimal, push_all, push_decimal, push_str, string_of};

verus! {

/// Sends anomalies through Hammerspoon, falling back to terminal-notifier.
pub struct Notifier {
    pub use_hammerspoon: bool,
    pub fallback_to_terminal_notifier: bool,
    pub warning_color: String,
    pub critical_color: String,
}

/// What happened to the last delivery attempt.
#[derive(Debug, Clone, Copy, PartialEq, Eq, Structural)]
pub enum DeliveryEvent {
    Start,
    HammerspoonSent,
    HammerspoonFailed,
    TerminalNotifierSent,
    TerminalNotifierFailed,
}

/// What the caller should do next.
pub enum DeliveryAction {
    /// Run `hs -c` with this Lua command.
    RunHammerspoon { command: String },
    /// Run terminal-notifier with this title and message.
    RunTerminalNotifier { title: String, message: String },
    /// Delivery is over and succeeded.
    Delivered,
    /// Delivery is over and failed.
    Failed,
}

/// The kind of the next step, without its payload.
#[derive(Debug, Clone, Copy, PartialEq, Eq, Structural)]
pub enum DeliveryKind {
    Hammerspoon,
    TerminalNotifier,
    Delivered,
    Failed,
}

impl DeliveryAction {
    pub open spec fn kind(&self) -> DeliveryKind {
        match self {
            DeliveryAction::RunHammerspoon { .. } => DeliveryKind::Hammerspoon,
            DeliveryAction::RunTerminalNotifier { .. } => DeliveryKind::TerminalNotifier,
            DeliveryAction::Delivered => DeliveryKind::Delivered,
            DeliveryAction::Failed => DeliveryKind::Failed,
        }
    }
}

/// Hammerspoon first when enabled; terminal-notifier when enabled as a
/// fallback; a Hammerspoon failure is final without the fallback.
pub open spec fn next_delivery(use_hs: bool, fallback: bool, event: DeliveryEvent) -> DeliveryKind {
    match event {
        DeliveryEvent::Start => if use_hs {
            DeliveryKind::Hammerspoon
        } else if fallback {
            DeliveryKind::TerminalNotifier
        } else {
            DeliveryKind::Delivered
        },
        DeliveryEvent::HammerspoonSent => DeliveryKind::Delivered,
        DeliveryEvent::HammerspoonFailed => if fallback { DeliveryKind::TerminalNotifier } else { DeliveryKind::Failed },
        DeliveryEvent::TerminalNotifierSent => DeliveryKind::Delivered,
        DeliveryEvent::TerminalNotifierFailed => DeliveryKind::Failed,
    }
}

/// The lines joined with a separator.
pub open spec fn join(lines: Seq<Seq<char>>, sep: Seq<char>) -> Seq<char>
    decreases lines.len(),
{
    if lines.len() == 0 {
        Seq::empty()
    } else if lines.len() == 1 {
        lines[0]
    } else {
        join(lines.drop_last(), sep) + sep + lines.last()
    }
}

/// `s` with every double quote preceded by a backslash.
pub open spec fn escape_quotes(s: Seq<char>) -> Seq<char>
    decreases s.len(),
{
    if s.len() == 0 {
        s
    } else if s.last() == '"' {
        escape_quotes(s.drop_last()) + seq!['\\', '"']
    } else {
        escape_quotes(s.drop_last()).push(s.last())
    }
}

/// The characters of each detail line.
pub open spec fn detail_lines(a: Anomaly) -> Seq<Seq<char>> {
    a.details@.map_values(|d: String| d@)
}

/// The alert text: icon, message, then the detail lines after literal `\n`s.
pub open spec fn alert_text(a: Anomaly) -> Seq<char> {
    let icon = match a.level {
        AlertLevel::Warning => "⚠️"@,
        AlertLevel::Critical => "🚨"@,
    };
    let details = if a.details@.len() == 0 {
        Seq::empty()
    } else {
        "\\n"@ + join(detail_lines(a), "\\n"@)
    };
    icon + " "@ + a.message@ + details
}

/// The Lua command that shows the alert in Hammerspoon.
pub open spec fn hammerspoon_command(a: Anomaly, color: Seq<char>) -> Seq<char> {
    let duration: nat = match a.level {
        AlertLevel::Warning => 10,
        AlertLevel::Critical => 15,
    };
    "hs.alert.show(\""@ + escape_quotes(alert_text(a)) + style_head() + color + style_tail()
        + decimal(duration) + ")"@
}

/// An opening brace.
pub open spec fn open_brace() -> Seq<char> {
    seq!['\x7b']
}

/// A closing brace.
pub open spec fn close_brace() -> Seq<char> {
    seq!['\x7d']
}

/// The stroke line of the alert's style table.
pub const HS_STROKE: &'static str = "\n                strokeColor = { white = 0, alpha = 0.75 },\n                fillColor = ";

/// The lines of the style table after the fill colour.
pub const HS_REST: &'static str = ",\n                textColor = { white = 1, alpha = 1 },\n                strokeWidth = 2,\n                radius = 10,\n                textSize = 18,\n                fadeInDuration = 0.15,\n                fadeOutDuration = 0.15,\n                atScreenEdge = 0\n            ";

/// The style table of the alert, up to the fill colour.
pub open spec fn style_head() -> Seq<char> {
    "\", "@ + open_brace() + HS_STROKE@ + open_brace() + " hex = \""@
}

/// The style table of the alert, after the fill colour.
pub open spec fn style_tail() -> Seq<char> {
    "\", alpha = 0.95 "@ + close_brace() + HS_REST@ + close_brace() + ", "@
}

/// The terminal-notifier title for a level.
pub open spec fn notifier_title(level: AlertLevel) -> Seq<char> {
    match level {
        AlertLevel::Warning => "System Sentinel Warning"@,
        AlertLevel::Critical => "System Sentinel CRITICAL"@,
    }
}

/// The terminal-notifier message: the anomaly message, a newline, then the
/// detail lines joined by newlines.
pub open spec fn notifier_message(a: Anomaly) -> Seq<char> {
    a.message@ + "\n"@ + join(detail_lines(a), "\n"@)
}

/// Appends the lines joined with a separator.
fn push_joined(out: &mut Vec<char>, lines: &Vec<String>, sep: &str)
    ensures
        final(out)@ == old(out)@ + join(lines@.map_values(|d: String| d@), sep@),
{
    let ghost ls = lines@.map_values(|d: String| d@);
    let mut i: usize = 0;
    while i < lines.len()
        invariant
            i <= lines@.len(),
            ls == lines@.map_values(|d: String| d@),
            out@ == old(out)@ + join(ls.subrange(0, i as int), sep@),
        decreases lines@.len() - i,
    {
        if i > 0 {
            push_str(out, sep);
        }
        push_all(out, &chars_of(lines[i].as_str()));
        proof {
            let pre = ls.subrange(0, i as int);
            let post = ls.subrange(0, i + 1);
            assert(post.drop_last() =~= pre);
            assert(post.last() == lines@[i as int]@);
            if i == 0 {
                assert(join(pre, sep@) =~= Seq::<char>::empty());
                assert(out@ =~= old(out)@ + join(post, sep@));
            } else {
                assert(out@ =~= old(out)@ + join(post, sep@));
            }
        }
        i = i + 1;
    }
    assert(ls.subrange(0, lines@.len() as int) =~= ls);
}

/// Appends `s` with every double quote escaped.
fn push_escaped(out: &mut Vec<char>, s: &Vec<char>)
    ensures
        final(out)@ == old(out)@ + escape_quotes(s@),
{
    let mut i: usize = 0;
    while i < s.len()
        invariant
            i <= s@.len(),
            out@ == old(out)@ + escape_quotes(s@.subrange(0, i as int)),
        decreases s@.len() - i,
    {
        let c = s[i];
        proof {
            assert(s@.subrange(0, i + 1).drop_last() =~= s@.subrange(0, i as int));
        }
        if c == '"' {
            out.push('\\');
            out.push('"');
        } else {
            out.push(c);
        }
        i = i + 1;
        assert(out@ =~= old(out)@ + escape_quotes(s@.subrange(0, i as int)));
    }
    assert(s@.subrange(0, s@.len() as int) =~= s@);
}

impl Notifier {
    pub fn new(config: &Config) -> (r: Self)
        ensures
            r.use_hammerspoon == config.notification.use_hammerspoon,
            r.fallback_to_terminal_notifier == config.notification.fallback_to_terminal_notifier,
            r.warning_color == config.notification.warning_color,
            r.critical_color == config.notification.critical_color,
    {
        Notifier {
            use_hammerspoon: config.notification.use_hammerspoon,
            fallback_to_terminal_notifier: config.notification.fallback_to_terminal_notifier,
            warning_color: config.notification.warning_color.clone(),
            critical_color: config.notification.critical_color.clone(),
        }
    }

    /// The colour of an alert at a level.
    pub open spec fn color_for(&self, level: AlertLevel) -> Seq<char> {
        match level {
            AlertLevel::Warning => self.warning_color@,
            AlertLevel::Critical => self.critical_color@,
        }
    }

    /// The Lua command that shows the anomaly in Hammerspoon.
    pub fn hammerspoon_command(&self, anomaly: &Anomaly) -> (r: String)
        ensures
            r@ == hammerspoon_command(*anomaly, self.color_for(anomaly.level)),
    {
        let mut text: Vec<char> = Vec::new();
        match anomaly.level {
            AlertLevel::Warning => push_str(&mut text, "⚠️"),
            AlertLevel::Critical => push_str(&mut text, "🚨"),
        }
        push_str(&mut text, " ");
        push_str(&mut text, anomaly.message.as_str());
        if anomaly.details.len() > 0 {
            push_str(&mut text, "\\n");
            push_joined(&mut text, &anomaly.details, "\\n");
        }
        assert(text@ =~= alert_text(*anomaly));
        let mut cmd: Vec<char> = Vec::new();
        push_str(&mut cmd, "hs.alert.show(\"");
        push_escaped(&mut cmd, &text);
        push_str(&mut cmd, "\", ");
        cmd.push('\x7b');
        push_str(&mut cmd, HS_STROKE);
        cmd.push('\x7b');
        push_str(&mut cmd, " hex = \"");
        match anomaly.level {
            AlertLevel::Warning => push_str(&mut cmd, self.warning_color.as_str()),
            AlertLevel::Critical => push_str(&mut cmd, self.critical_color.as_str()),
        }
        push_str(&mut cmd, "\", alpha = 0.95 ");
        cmd.push('\x7d');
        push_str(&mut cmd, HS_REST);
        cmd.push('\x7d');
        push_str(&mut cmd, ", ");
        match anomaly.level {
            AlertLevel::Warning => push_decimal(&mut cmd, 10),
            AlertLevel::Critical => push_decimal(&mut cmd, 15),
        }
        push_str(&mut cmd, ")");
        assert(cmd@ =~= hammerspoon_command(*anomaly, self.color_for(anomaly.level)));
        string_of(&cmd)
    }

    /// The title and message handed to terminal-notifier.
    pub fn terminal_notifier_text(&self, anomaly: &Anomaly) -> (r: (String, String))
        ensures
            r.0@ == notifier_title(anomaly.level),
            r.1@ == notifier_message(*anomaly),
    {
        let title = match anomaly.level {
            AlertLevel::Warning => String::from_str("System Sentinel Warning"),
            AlertLevel::Critical => String::from_str("System Sentinel CRITICAL"),
        };
        let mut msg: Vec<char> = Vec::new();
        push_str(&mut msg, anomaly.message.as_str());
        push_str(&mut msg, "\n");
        push_joined(&mut msg, &anomaly.details, "\n");
        (title, string_of(&msg))
    }

    /// The next delivery step for an anomaly, given what happened to the last
    /// one (`Start` before any attempt).
    pub fn send(&self, anomaly: &Anomaly, event: DeliveryEvent) -> (r: DeliveryAction)
        ensures
            r.kind() == next_delivery(self.use_hammerspoon, self.fallback_to_terminal_notifier, event),
            r matches DeliveryAction::RunHammerspoon { command }
                ==> command@ == hammerspoon_command(*anomaly, self.color_for(anomaly.level)),
            r matches DeliveryAction::RunTerminalNotifier { title, message }
                ==> title@ == notifier_title(anomaly.level) && message@ == notifier_message(*anomaly),
    {
        let kind = match event {
            DeliveryEvent::Start => if self.use_hammerspoon {
                DeliveryKind::Hammerspoon
            } else if self.fallback_to_terminal_notifier {
                DeliveryKind::TerminalNotifier
            } else {
                DeliveryKind::Delivered
            },
            DeliveryEvent::HammerspoonSent => DeliveryKind::Delivered,
            DeliveryEvent::HammerspoonFailed => if self.fallback_to_terminal_notifier {
                DeliveryKind::TerminalNotifier
            } else {
                DeliveryKind::Failed
            },
            DeliveryEvent::TerminalNotifierSent => DeliveryKind::Delivered,
            DeliveryEvent::TerminalNotifierFailed => DeliveryKind::Failed,
        };
        match kind {
            DeliveryKind::Hammerspoon => DeliveryAction::RunHammerspoon { command: self.hammerspoon_command(anomaly) },
            DeliveryKind::TerminalNotifier => {
                let (title, message) = self.terminal_notifier_text(anomaly);
                DeliveryAction::RunTerminalNotifier { title, message }
            },
            DeliveryKind::Delivered => DeliveryAction::Delivered,
            DeliveryKind::Failed => DeliveryAction::Failed,
        }
    }
}

} // verus!
