//! The in-memory config list: lookup by name, add with optional overwrite,
//! and removal. The `name` field is the primary key; uniqueness is enforced
//! only when adding.

use vstd::prelude::*;
use crate::record::{Command, RecordV, text_eq, copy_record};

verus! {

/// Index of the first record at or after `from` whose name is `n`, or -1.
pub open spec fn find_from(l: Seq<RecordV>, n: Seq<char>, from: int) -> int
    decreases l.len() - from,
{
    if from < 0 || from >= l.len() {
        -1
    } else if l[from].name == n {
        from
    } else {
        find_from(l, n, from + 1)
    }
}

/// Index of the first record named `n`, or -1 when no record carries the name.
pub open spec fn spec_find(l: Seq<RecordV>, n: Seq<char>) -> int {
    find_from(l, n, 0)
}

pub proof fn lemma_find_from(l: Seq<RecordV>, n: Seq<char>, from: int)
    requires
        0 <= from <= l.len(),
    ensures
        ({
            let r = find_from(l, n, from);
            if r == -1 {
                forall|k: int| from <= k < l.len() ==> l[k].name != n
            } else {
                from <= r < l.len() && l[r].name == n && (forall|k: int|
                    from <= k < r ==> l[k].name != n)
            }
        }),
    decreases l.len() - from,
{
    if from < l.len() && l[from].name != n {
        lemma_find_from(l, n, from + 1);
    }
}

/// `spec_find` succeeds exactly when some record carries the name.
pub proof fn lemma_find_found(l: Seq<RecordV>, n: Seq<char>)
    ensures
        (spec_find(l, n) >= 0) <==> (exists|i: int| 0 <= i < l.len() && l[i].name == n),
        spec_find(l, n) >= 0 ==> spec_find(l, n) < l.len() && l[spec_find(l, n)].name == n,
{
    lemma_find_from(l, n, 0);
}

/// The list after an add, and whether the operation took effect: append when
/// the name is new, replace the first match in place when overwriting, and
/// reject (leaving the list as it was) otherwise.
pub open spec fn spec_add(l: Seq<RecordV>, r: RecordV, overwrite: bool) -> (Seq<RecordV>, bool) {
    let i = spec_find(l, r.name);
    if i < 0 {
        (l.push(r), true)
    } else if overwrite {
        (l.update(i, r), true)
    } else {
        (l, false)
    }
}

/// The list after removing every record named `n`, order preserved.
pub open spec fn spec_remove(l: Seq<RecordV>, n: Seq<char>) -> Seq<RecordV> {
    l.filter(|p: RecordV| p.name != n)
}

/// Index of the first record named `name`, if one exists.
pub fn find_by_name(config: &Vec<Command>, name: &Vec<char>) -> (r: Option<usize>)
    ensures
        match r {
            Some(i) => i < config@.len() && spec_find(config.deep_view(), name@) == i,
            None => spec_find(config.deep_view(), name@) == -1,
        },
{
    let ghost dv = config.deep_view();
    let mut i: usize = 0;
    while i < config.len()
        invariant
            i <= config@.len(),
            dv == config.deep_view(),
            dv.len() == config@.len(),
            find_from(dv, name@, 0) == find_from(dv, name@, i as int),
        decreases config@.len() - i,
    {
        if text_eq(&config[i].name, name) {
            proof {
                assert(dv[i as int] == config@[i as int]@);
            }
            return Some(i);
        }
        proof {
            assert(dv[i as int] == config@[i as int]@);
            assert(dv[i as int].name != name@);
        }
        i = i + 1;
    }
    None
}

/// Add `rec` to the list: append when its name is new, replace the first
/// record of the same name when `overwrite` is set, and otherwise report the
/// duplicate without touching the list. Returns whether the list changed.
pub fn add(config: &mut Vec<Command>, rec: Command, overwrite: bool) -> (ok: bool)
    ensures
        ({
            let (nl, changed) = spec_add(old(config).deep_view(), rec@, overwrite);
            final(config).deep_view() == nl && ok == changed
        }),
{
    let found = find_by_name(config, &rec.name);
    match found {
        None => {
            config.push(rec);
            proof {
                assert(config.deep_view() =~= old(config).deep_view().push(rec@));
            }
            true
        },
        Some(i) => {
            if overwrite {
                config.set(i, rec);
                proof {
                    assert(config.deep_view() =~= old(config).deep_view().update(
                        i as int,
                        rec@,
                    ));
                }
                true
            } else {
                false
            }
        },
    }
}

/// Remove every record named `name`, keeping the others in order.
pub fn remove(config: &mut Vec<Command>, name: &Vec<char>)
    ensures
        final(config).deep_view() == spec_remove(old(config).deep_view(), name@),
{
    let ghost dv = config.deep_view();
    let ghost pred = |p: RecordV| p.name != name@;
    let mut out: Vec<Command> = Vec::new();
    let mut i: usize = 0;
    while i < config.len()
        invariant
            i <= config@.len(),
            dv == config.deep_view(),
            dv.len() == config@.len(),
            pred == (|p: RecordV| p.name != name@),
            out.deep_view() == dv.take(i as int).filter(pred),
        decreases config@.len() - i,
    {
        let ghost prev = out.deep_view();
        let keep = !text_eq(&config[i].name, name);
        proof {
            reveal(Seq::filter);
            assert(dv[i as int] == config@[i as int]@);
            assert(dv.take(i + 1).drop_last() =~= dv.take(i as int));
            assert(dv.take(i + 1).last() == dv[i as int]);
            assert(dv.take(i + 1).filter(pred) == if pred(dv[i as int]) {
                dv.take(i as int).filter(pred).push(dv[i as int])
            } else {
                dv.take(i as int).filter(pred)
            });
        }
        if keep {
            let c = copy_record(&config[i]);
            out.push(c);
            proof {
                assert(out.deep_view() =~= prev.push(dv[i as int]));
            }
        }
        i = i + 1;
    }
    proof {
        assert(dv.take(dv.len() as int) =~= dv);
    }
    *config = out;
}

/// Adding the same name twice without overwrite: whatever the first call did,
/// the second call reports the conflict and leaves the list exactly as the
/// first call left it.
pub proof fn lemma_add_twice_same_name(l: Seq<RecordV>, r1: RecordV, r2: RecordV)
    requires
        r2.name == r1.name,
    ensures
        ({
            let (l1, ok1) = spec_add(l, r1, false);
            spec_add(l1, r2, false) == (l1, false)
        }),
{
    let (l1, ok1) = spec_add(l, r1, false);
    lemma_find_found(l, r1.name);
    if spec_find(l, r1.name) < 0 {
        assert(l1 == l.push(r1));
        assert(l1[l.len() as int].name == r2.name);
        lemma_find_found(l1, r2.name);
    } else {
        lemma_find_found(l1, r2.name);
    }
}

/// Adding with overwrite over an existing name replaces that record's fields
/// in place: same position, same length, all other records untouched.
pub proof fn lemma_add_overwrite_replaces(l: Seq<RecordV>, r: RecordV)
    requires
        spec_find(l, r.name) >= 0,
    ensures
        ({
            let (l1, ok) = spec_add(l, r, true);
            ok && l1.len() == l.len() && l1[spec_find(l, r.name)] == r && (forall|j: int|
                0 <= j < l.len() && j != spec_find(l, r.name) ==> l1[j] == l[j])
        }),
{
    lemma_find_found(l, r.name);
}

/// Removing a name that no record carries leaves the list content unchanged.
pub proof fn lemma_remove_absent(l: Seq<RecordV>, n: Seq<char>)
    requires
        forall|i: int| 0 <= i < l.len() ==> (#[trigger] l[i]).name != n,
    ensures
        spec_remove(l, n) == l,
    decreases l.len(),
{
    reveal(Seq::filter);
    let pred = |p: RecordV| p.name != n;
    if l.len() == 0 {
        assert(l.filter(pred) =~= l);
    } else {
        assert(forall|i: int|
            0 <= i < l.drop_last().len() ==> (#[trigger] l.drop_last()[i]).name != n);
        lemma_remove_absent(l.drop_last(), n);
        assert(pred(l.last()));
        assert(l.filter(pred) =~= l.drop_last().filter(pred).push(l.last()));
        assert(l.drop_last().push(l.last()) =~= l);
    }
}

} // verus!
