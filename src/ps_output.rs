//! Parent links as printed by `ps -ax -o pid,ppid`: a header line, then one
//! line per process whose first two blank-separated fields are the process id
//! and its parent's id.

use vstd::prelude::*;

verus! {

/// Characters that separate fields.
pub open spec fn is_blank(c: char) -> bool {
    c == ' ' || c == '\t' || c == '\r'
}

pub open spec fn is_digit(c: char) -> bool {
    '0' <= c && c <= '9'
}

/// The number written by a run of decimal digits.
pub open spec fn digits_value(s: Seq<char>) -> int
    decreases s.len(),
{
    if s.len() == 0 {
        0
    } else {
        digits_value(s.drop_last()) * 10 + (s.last() as int - '0' as int)
    }
}

/// A field read as a `u32`: digits only, and not too large.
pub open spec fn field_u32(s: Seq<char>) -> Option<u32> {
    if s.len() > 0 && (forall|i: int| 0 <= i < s.len() ==> is_digit(#[trigger] s[i])) && digits_value(s) <= u32::MAX {
        Some(digits_value(s) as u32)
    } else {
        None
    }
}

/// The first index at or after `i` that is not blank.
pub open spec fn skip_blanks(s: Seq<char>, i: int) -> int
    decreases s.len() - i,
{
    if i < 0 || i >= s.len() || !is_blank(s[i]) { i } else { skip_blanks(s, i + 1) }
}

/// The first index at or after `i` that is blank, or the end.
pub open spec fn field_end(s: Seq<char>, i: int) -> int
    decreases s.len() - i,
{
    if i < 0 || i >= s.len() || is_blank(s[i]) { i } else { field_end(s, i + 1) }
}

/// The (pid, parent pid) of one line: two numeric fields, the parent not zero.
pub open spec fn line_entry(line: Seq<char>) -> Option<(u32, u32)> {
    let a0 = skip_blanks(line, 0);
    let b0 = field_end(line, a0);
    let a1 = skip_blanks(line, b0);
    let b1 = field_end(line, a1);
    if a1 < line.len() {
        match (field_u32(line.subrange(a0, b0)), field_u32(line.subrange(a1, b1))) {
            (Some(pid), Some(ppid)) => if ppid != 0 { Some((pid, ppid)) } else { None },
            _ => None,
        }
    } else {
        None
    }
}

/// The first newline at or after `i`, or the end.
pub open spec fn line_end(s: Seq<char>, i: int) -> int
    decreases s.len() - i,
{
    if i < 0 || i >= s.len() || s[i] == '\n' { i } else { line_end(s, i + 1) }
}

/// The entries of the lines starting at `i`.
pub open spec fn entries_from(s: Seq<char>, i: int) -> Seq<(u32, u32)>
    decreases s.len() - i,
{
    if i < 0 || i >= s.len() {
        Seq::empty()
    } else {
        let j = line_end(s, i);
        let rest = if i <= j && j < s.len() { entries_from(s, j + 1) } else { Seq::empty() };
        match line_entry(s.subrange(i, j)) {
            Some(e) => seq![e] + rest,
            None => rest,
        }
    }
}

/// The entries of every line after the header.
pub open spec fn parent_entries(s: Seq<char>) -> Seq<(u32, u32)> {
    let j = line_end(s, 0);
    if j < s.len() { entries_from(s, j + 1) } else { Seq::empty() }
}

proof fn lemma_scan_bounds(s: Seq<char>, i: int)
    requires
        0 <= i <= s.len(),
    ensures
        i <= skip_blanks(s, i) <= s.len(),
        i <= field_end(s, i) <= s.len(),
        i <= line_end(s, i) <= s.len(),
    decreases s.len() - i,
{
    if i < s.len() {
        lemma_scan_bounds(s, i + 1);
    }
}

proof fn lemma_digits_nonneg(s: Seq<char>)
    requires
        forall|i: int| 0 <= i < s.len() ==> is_digit(#[trigger] s[i]),
    ensures
        digits_value(s) >= 0,
    decreases s.len(),
{
    if s.len() > 0 {
        lemma_digits_nonneg(s.drop_last());
    }
}

fn is_blank_exec(c: char) -> (r: bool)
    ensures
        r == is_blank(c),
{
    c == ' ' || c == '\t' || c == '\r'
}

/// The first index at or after `i` (within `end`) that is not blank.
fn skip_blanks_exec(s: &Vec<char>, i: usize, end: usize) -> (r: usize)
    requires
        i <= end <= s.len(),
    ensures
        r == skip_blanks(s@.subrange(0, end as int), i as int),
{
    let ghost line = s@.subrange(0, end as int);
    let mut k = i;
    while k < end && is_blank_exec(s[k])
        invariant
            i <= k <= end <= s.len(),
            line == s@.subrange(0, end as int),
            skip_blanks(line, i as int) == skip_blanks(line, k as int),
        decreases end - k,
    {
        k = k + 1;
    }
    k
}

/// The first index at or after `i` (within `end`) that is blank, or `end`.
fn field_end_exec(s: &Vec<char>, i: usize, end: usize) -> (r: usize)
    requires
        i <= end <= s.len(),
    ensures
        r == field_end(s@.subrange(0, end as int), i as int),
{
    let ghost line = s@.subrange(0, end as int);
    let mut k = i;
    while k < end && !is_blank_exec(s[k])
        invariant
            i <= k <= end <= s.len(),
            line == s@.subrange(0, end as int),
            field_end(line, i as int) == field_end(line, k as int),
        decreases end - k,
    {
        k = k + 1;
    }
    k
}

/// The characters `s[from..to]` read as a `u32`.
fn field_u32_exec(s: &Vec<char>, from: usize, to: usize) -> (r: Option<u32>)
    requires
        from <= to <= s.len(),
    ensures
        r == field_u32(s@.subrange(from as int, to as int)),
{
    let ghost f = s@.subrange(from as int, to as int);
    if from == to {
        return None;
    }
    let mut v: u64 = 0;
    let mut over = false;
    let mut k = from;
    while k < to
        invariant
            from <= k <= to <= s.len(),
            f == s@.subrange(from as int, to as int),
            forall|i: int| 0 <= i < k - from ==> is_digit(#[trigger] f[i]),
            !over ==> v == digits_value(f.subrange(0, k - from)),
            over ==> digits_value(f.subrange(0, k - from)) > u32::MAX,
            v <= u32::MAX,
        decreases to - k,
    {
        let c = s[k];
        if !('0' <= c && c <= '9') {
            assert(!is_digit(f[k - from]));
            return None;
        }
        let ghost pre = f.subrange(0, k - from);
        assert(f.subrange(0, k + 1 - from).drop_last() =~= pre);
        proof { lemma_digits_nonneg(pre); }
        let d = (c as u32 - '0' as u32) as u64;
        if !over {
            let w = v * 10 + d;
            if w > u32::MAX as u64 {
                over = true;
            } else {
                v = w;
            }
        }
        k = k + 1;
    }
    assert(f.subrange(0, to - from) =~= f);
    if over { None } else { Some(v as u32) }
}

/// The (pid, parent pid) of the line `s[start..end]`.
fn line_entry_exec(s: &Vec<char>, start: usize, end: usize) -> (r: Option<(u32, u32)>)
    requires
        start <= end <= s.len(),
    ensures
        r == line_entry(s@.subrange(start as int, end as int)),
{
    let ghost line = s@.subrange(start as int, end as int);
    let mut t: Vec<char> = Vec::new();
    let mut k = start;
    while k < end
        invariant
            start <= k <= end <= s.len(),
            t@ == s@.subrange(start as int, k as int),
        decreases end - k,
    {
        t.push(s[k]);
        k = k + 1;
        assert(t@ =~= s@.subrange(start as int, k as int));
    }
    let n = t.len();
    assert(t@.subrange(0, n as int) =~= line);
    let a0 = skip_blanks_exec(&t, 0, n);
    proof { lemma_scan_bounds(line, 0); }
    let b0 = field_end_exec(&t, a0, n);
    proof { lemma_scan_bounds(line, a0 as int); }
    let a1 = skip_blanks_exec(&t, b0, n);
    proof { lemma_scan_bounds(line, b0 as int); }
    let b1 = field_end_exec(&t, a1, n);
    proof { lemma_scan_bounds(line, a1 as int); }
    if a1 >= n {
        return None;
    }
    let pid = field_u32_exec(&t, a0, b0);
    let ppid = field_u32_exec(&t, a1, b1);
    match (pid, ppid) {
        (Some(p), Some(q)) => if q != 0 { Some((p, q)) } else { None },
        _ => None,
    }
}

/// The first newline at or after `i`, or the end.
fn line_end_exec(s: &Vec<char>, i: usize) -> (r: usize)
    requires
        i <= s.len(),
    ensures
        r == line_end(s@, i as int),
{
    let mut k = i;
    while k < s.len() && s[k] != '\n'
        invariant
            i <= k <= s.len(),
            line_end(s@, i as int) == line_end(s@, k as int),
        decreases s.len() - k,
    {
        k = k + 1;
    }
    k
}

/// The (pid, parent pid) pairs of `ps -ax -o pid,ppid` output, in line
/// order, skipping the header, malformed lines and parent id zero.
pub fn parse_parent_map(output: &Vec<char>) -> (r: Vec<(u32, u32)>)
    ensures
        r@ == parent_entries(output@),
{
    let mut out: Vec<(u32, u32)> = Vec::new();
    let first = line_end_exec(output, 0);
    if first >= output.len() {
        return out;
    }
    proof { lemma_scan_bounds(output@, 0); }
    let mut i = first + 1;
    while i < output.len()
        invariant
            first < output.len(),
            first + 1 <= i <= output.len(),
            out@ + entries_from(output@, i as int) == parent_entries(output@),
        decreases output.len() - i,
    {
        let j = line_end_exec(output, i);
        proof { lemma_scan_bounds(output@, i as int); }
        let e = line_entry_exec(output, i, j);
        let ghost before = out@;
        match e {
            Some(pair) => {
                out.push(pair);
            },
            None => {},
        }
        if j >= output.len() {
            assert(entries_from(output@, i as int) == (match e { Some(x) => seq![x], None => Seq::<(u32, u32)>::empty() }) + Seq::<(u32, u32)>::empty());
            assert(out@ + Seq::<(u32, u32)>::empty() =~= out@);
            assert(out@ =~= before + entries_from(output@, i as int));
            assert(before + entries_from(output@, i as int) == parent_entries(output@));
            assert(out@ == parent_entries(output@));
            return out;
        }
        assert(out@ + entries_from(output@, j + 1) =~= before + entries_from(output@, i as int));
        i = j + 1;
    }
    assert(out@ + entries_from(output@, i as int) =~= out@);
    out
}

} // verus!
