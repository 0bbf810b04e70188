//! Reading the multiplexer's query output: `list-panes` emits one
//! `"<pid> <window_name>"` record per line, `list-sessions` one session name
//! per line. Everything here is pure text processing; the subprocesses that
//! produce the text live outside the library.

use vstd::prelude::*;

verus! {

/// Index of the first occurrence of `c` in `t` at or after `from`, or -1.
pub open spec fn find_char_from(t: Seq<char>, c: char, from: int) -> int
    decreases t.len() - from,
{
    if from < 0 || from >= t.len() {
        -1
    } else if t[from] == c {
        from
    } else {
        find_char_from(t, c, from + 1)
    }
}

/// `find_char_from` returns -1 exactly when `c` does not occur at or after
/// `from`, and otherwise the first index where it does.
pub proof fn lemma_find_char(t: Seq<char>, c: char, from: int)
    requires
        0 <= from <= t.len(),
    ensures
        ({
            let r = find_char_from(t, c, from);
            if r == -1 {
                forall|k: int| from <= k < t.len() ==> t[k] != c
            } else {
                from <= r < t.len() && t[r] == c && (forall|k: int| from <= k < r ==> t[k] != c)
            }
        }),
    decreases t.len() - from,
{
    if from < t.len() && t[from] != c {
        lemma_find_char(t, c, from + 1);
    }
}

pub open spec fn is_digit(c: char) -> bool {
    48 <= c as u32 && c as u32 <= 57
}

pub open spec fn digit_val(c: char) -> int {
    c as u32 - 48
}

pub open spec fn all_digits(t: Seq<char>) -> bool {
    forall|i: int| 0 <= i < t.len() ==> is_digit(#[trigger] t[i])
}

/// Value of a sequence of decimal digits, most significant first.
pub open spec fn dec_val(t: Seq<char>) -> int
    decreases t.len(),
{
    if t.len() == 0 {
        0
    } else {
        dec_val(t.drop_last()) * 10 + digit_val(t.last())
    }
}

/// The number a line's pid field denotes: an optional sign, then one or more
/// decimal digits, nothing else, and a value that fits in an `i32`.
pub open spec fn spec_parse_i32(t: Seq<char>) -> Option<i32> {
    let neg = t.len() > 0 && t[0] == '-';
    let digs = if t.len() > 0 && (t[0] == '+' || t[0] == '-') {
        t.skip(1)
    } else {
        t
    };
    if digs.len() == 0 || !all_digits(digs) {
        None
    } else {
        let v = if neg {
            -dec_val(digs)
        } else {
            dec_val(digs)
        };
        if -0x8000_0000 <= v <= 0x7fff_ffff {
            Some(v as i32)
        } else {
            None
        }
    }
}

/// What one `list-panes` line contributes for window `name`: its pid when the
/// line has a space, the text after the first space equals `name`, and the
/// text before it parses as an `i32`; nothing otherwise.
pub open spec fn spec_line_pid(line: Seq<char>, name: Seq<char>) -> Option<i32> {
    let sp = find_char_from(line, ' ', 0);
    if sp < 0 {
        None
    } else if line.skip(sp + 1) == name {
        spec_parse_i32(line.take(sp))
    } else {
        None
    }
}

/// All pids that the `list-panes` output `s` reports for window `name`, in
/// line order. Lines are separated by `'\n'`; malformed lines contribute
/// nothing.
pub open spec fn spec_pids(s: Seq<char>, name: Seq<char>) -> Seq<i32>
    decreases s.len(),
    via spec_pids_dec
{
    let nl = find_char_from(s, '\n', 0);
    let head = if nl < 0 {
        s
    } else {
        s.take(nl)
    };
    let head_seq = match spec_line_pid(head, name) {
        Some(p) => seq![p],
        None => Seq::<i32>::empty(),
    };
    if nl < 0 {
        head_seq
    } else {
        head_seq + spec_pids(s.skip(nl + 1), name)
    }
}

#[via_fn]
proof fn spec_pids_dec(s: Seq<char>, name: Seq<char>) {
    lemma_find_char(s, '\n', 0);
}

/// Whether some nonempty `list-sessions` output line equals `name` exactly.
/// Empty segments — the one after a trailing newline, or all of an empty
/// listing — name no session and never match.
pub open spec fn spec_session_listed(s: Seq<char>, name: Seq<char>) -> bool
    decreases s.len(),
    via spec_session_listed_dec
{
    let nl = find_char_from(s, '\n', 0);
    if nl < 0 {
        s.len() > 0 && s == name
    } else {
        (nl > 0 && s.take(nl) == name) || spec_session_listed(s.skip(nl + 1), name)
    }
}

#[via_fn]
proof fn spec_session_listed_dec(s: Seq<char>, name: Seq<char>) {
    lemma_find_char(s, '\n', 0);
}

proof fn lemma_dec_val_nonneg(t: Seq<char>)
    requires
        all_digits(t),
    ensures
        dec_val(t) >= 0,
    decreases t.len(),
{
    if t.len() > 0 {
        assert(all_digits(t.drop_last()));
        lemma_dec_val_nonneg(t.drop_last());
    }
}

/// The value of a digit string dominates the value of any of its prefixes.
proof fn lemma_dec_val_take_le(t: Seq<char>, k: int)
    requires
        all_digits(t),
        0 <= k <= t.len(),
    ensures
        dec_val(t.take(k)) <= dec_val(t),
    decreases t.len(),
{
    if k < t.len() {
        assert(all_digits(t.drop_last()));
        assert(t.take(k) =~= t.drop_last().take(k));
        lemma_dec_val_take_le(t.drop_last(), k);
        lemma_dec_val_nonneg(t.drop_last());
    } else {
        assert(t.take(k) =~= t);
    }
}

/// Index of the first occurrence of `c` in `s[from..to]`, if any.
fn find_char_in(s: &Vec<char>, from: usize, to: usize, c: char) -> (r: Option<usize>)
    requires
        from <= to <= s@.len(),
    ensures
        match r {
            Some(j) => from <= j < to && s@[j as int] == c && (forall|k: int|
                from <= k < j ==> s@[k] != c),
            None => forall|k: int| from <= k < to ==> s@[k] != c,
        },
{
    let mut j: usize = from;
    while j < to
        invariant
            from <= j <= to <= s@.len(),
            forall|k: int| from <= k < j ==> s@[k] != c,
        decreases to - j,
    {
        if s[j] == c {
            return Some(j);
        }
        j = j + 1;
    }
    None
}

/// Whether `s[from..to]` equals `t`, character for character.
fn seg_eq(s: &Vec<char>, from: usize, to: usize, t: &Vec<char>) -> (r: bool)
    requires
        from <= to <= s@.len(),
    ensures
        r == (s@.subrange(from as int, to as int) == t@),
{
    if to - from != t.len() {
        return false;
    }
    let mut i: usize = 0;
    while i < t.len()
        invariant
            from <= to <= s@.len(),
            i <= t@.len(),
            to - from == t@.len(),
            forall|k: int| 0 <= k < i ==> s@[from + k] == t@[k],
        decreases t.len() - i,
    {
        if s[from + i] != t[i] {
            return false;
        }
        i = i + 1;
    }
    proof {
        assert(s@.subrange(from as int, to as int) =~= t@);
    }
    true
}

/// Parse `s[from..to]` as a decimal `i32`, exactly as [`spec_parse_i32`]
/// describes.
#[verifier::loop_isolation(false)]
fn parse_i32_seg(s: &Vec<char>, from: usize, to: usize) -> (r: Option<i32>)
    requires
        from <= to <= s@.len(),
    ensures
        r == spec_parse_i32(s@.subrange(from as int, to as int)),
{
    let ghost t = s@.subrange(from as int, to as int);
    if from == to {
        return None;
    }
    let first = s[from];
    let neg = first == '-';
    let ds: usize = if first == '-' || first == '+' {
        from + 1
    } else {
        from
    };
    let ghost digs = s@.subrange(ds as int, to as int);
    proof {
        if first == '-' || first == '+' {
            assert(digs =~= t.skip(1));
        } else {
            assert(digs =~= t);
        }
    }
    if ds == to {
        return None;
    }
    let mut acc: i64 = 0;
    let mut i: usize = ds;
    while i < to
        invariant
            ds <= i <= to <= s@.len(),
            digs == s@.subrange(ds as int, to as int),
            all_digits(digs.take(i - ds)),
            acc == dec_val(digs.take(i - ds)),
            0 <= acc <= 0x8000_0000,
        decreases to - i,
    {
        let c = s[i];
        let u = c as u32;
        if u < 48 || u > 57 {
            proof {
                assert(digs[i - ds] == c);
                assert(!is_digit(digs[i - ds]));
                assert(!all_digits(digs));
            }
            return None;
        }
        proof {
            assert(digs.take(i - ds + 1).drop_last() =~= digs.take(i - ds));
            assert(digs.take(i - ds + 1).last() == c);
        }
        acc = acc * 10 + ((u - 48) as i64);
        i = i + 1;
        if acc > 0x8000_0000 {
            proof {
                if all_digits(digs) {
                    lemma_dec_val_take_le(digs, i - ds);
                }
            }
            return None;
        }
    }
    proof {
        assert(digs.take(to - ds) =~= digs);
    }
    if neg {
        Some((-acc) as i32)
    } else {
        if acc <= 0x7fff_ffff {
            Some(acc as i32)
        } else {
            None
        }
    }
}

/// What the line `s[from..to]` contributes for window `name`.
fn line_pid(s: &Vec<char>, from: usize, to: usize, name: &Vec<char>) -> (r: Option<i32>)
    requires
        from <= to <= s@.len(),
    ensures
        r == spec_line_pid(s@.subrange(from as int, to as int), name@),
{
    let ghost line = s@.subrange(from as int, to as int);
    let sp_opt = find_char_in(s, from, to, ' ');
    match sp_opt {
        None => {
            proof {
                lemma_find_char(line, ' ', 0);
                let r = find_char_from(line, ' ', 0);
                if r != -1 {
                    assert(line[r] == ' ');
                    assert(s@[from + r] == ' ');
                }
            }
            None
        },
        Some(sp) => {
            proof {
                lemma_find_char(line, ' ', 0);
                let r = find_char_from(line, ' ', 0);
                assert(line[sp - from] == ' ');
                if r == -1 {
                    assert(line[sp - from] != ' ');
                }
                if r < sp - from {
                    assert(s@[from + r] == ' ');
                }
                if r > sp - from {
                    assert(line[sp - from] != ' ');
                }
                assert(r == sp - from);
            }
            if seg_eq(s, sp + 1, to, name) {
                proof {
                    assert(line.skip(sp - from + 1) =~= s@.subrange(sp + 1 as int, to as int));
                }
                let r = parse_i32_seg(s, from, sp);
                proof {
                    assert(line.take(sp - from) =~= s@.subrange(from as int, sp as int));
                }
                r
            } else {
                proof {
                    assert(line.skip(sp - from + 1) =~= s@.subrange(sp + 1 as int, to as int));
                }
                None
            }
        },
    }
}

/// All pids that the `list-panes` output `s` reports for window `name`,
/// in line order.
pub fn pids_for_window(s: &Vec<char>, name: &Vec<char>) -> (r: Vec<i32>)
    ensures
        r@ == spec_pids(s@, name@),
{
    let mut out: Vec<i32> = Vec::new();
    let mut cur: usize = 0;
    proof {
        assert(s@.skip(0) =~= s@);
    }
    loop
        invariant
            cur <= s@.len(),
            spec_pids(s@, name@) == out@ + spec_pids(s@.skip(cur as int), name@),
        decreases s@.len() - cur,
    {
        let ghost rest = s@.skip(cur as int);
        let nl_opt = find_char_in(s, cur, s.len(), '\n');
        proof {
            lemma_find_char(rest, '\n', 0);
            let r = find_char_from(rest, '\n', 0);
            match nl_opt {
                Some(j) => {
                    assert(rest[j - cur] == '\n');
                    if r == -1 {
                        assert(rest[j - cur] != '\n');
                    }
                    if r < j - cur {
                        assert(s@[cur + r] == '\n');
                    }
                    if r > j - cur {
                        assert(rest[j - cur] != '\n');
                    }
                    assert(r == j - cur);
                },
                None => {
                    if r != -1 {
                        assert(rest[r] == '\n');
                        assert(s@[cur + r] == '\n');
                    }
                },
            }
        }
        match nl_opt {
            None => {
                let p = line_pid(s, cur, s.len(), name);
                proof {
                    assert(rest =~= s@.subrange(cur as int, s@.len() as int));
                }
                if let Some(pid) = p {
                    out.push(pid);
                }
                proof {
                    assert(spec_pids(s@, name@) =~= out@);
                }
                return out;
            },
            Some(nl) => {
                let p = line_pid(s, cur, nl, name);
                proof {
                    assert(rest.take(nl - cur) =~= s@.subrange(cur as int, nl as int));
                    assert(rest.skip(nl - cur + 1) =~= s@.skip(nl + 1 as int));
                }
                if let Some(pid) = p {
                    out.push(pid);
                }
                cur = nl + 1;
            },
        }
    }
}

/// Whether `list-sessions` output `s` contains a nonempty line equal to
/// `name`: an empty listing holds no session name, so nothing — not even an
/// empty name — counts as listed in it.
pub fn is_session_listed(s: &Vec<char>, name: &Vec<char>) -> (r: bool)
    ensures
        r == spec_session_listed(s@, name@),
{
    let mut cur: usize = 0;
    proof {
        assert(s@.skip(0) =~= s@);
    }
    loop
        invariant
            cur <= s@.len(),
            spec_session_listed(s@, name@) == spec_session_listed(s@.skip(cur as int), name@),
        decreases s@.len() - cur,
    {
        let ghost rest = s@.skip(cur as int);
        let nl_opt = find_char_in(s, cur, s.len(), '\n');
        proof {
            lemma_find_char(rest, '\n', 0);
            let r = find_char_from(rest, '\n', 0);
            match nl_opt {
                Some(j) => {
                    assert(rest[j - cur] == '\n');
                    if r == -1 {
                        assert(rest[j - cur] != '\n');
                    }
                    if r < j - cur {
                        assert(s@[cur + r] == '\n');
                    }
                    if r > j - cur {
                        assert(rest[j - cur] != '\n');
                    }
                    assert(r == j - cur);
                },
                None => {
                    if r != -1 {
                        assert(rest[r] == '\n');
                        assert(s@[cur + r] == '\n');
                    }
                },
            }
        }
        match nl_opt {
            None => {
                proof {
                    assert(rest =~= s@.subrange(cur as int, s@.len() as int));
                }
                if cur == s.len() {
                    return false;
                }
                return seg_eq(s, cur, s.len(), name);
            },
            Some(nl) => {
                proof {
                    assert(rest.take(nl - cur) =~= s@.subrange(cur as int, nl as int));
                    assert(rest.skip(nl - cur + 1) =~= s@.skip(nl + 1 as int));
                }
                if nl > cur && seg_eq(s, cur, nl, name) {
                    return true;
                }
                cur = nl + 1;
            },
        }
    }
}

} // verus!
