//! The next-available-path resolver.
//!
//! A desired path that is free is returned as it is. Otherwise its final
//! name is split into a base and a trailing number, and the candidates
//! `base + n` (with the file's extension put back, for files) are probed
//! for `n` counting up from just past that number, until one is free.
//!
//! Whether a path is occupied is asked of an oracle that the caller hands
//! in; nothing is cached, and the answer may be stale the moment it is
//! given. The probing has no cap of its own: it ends at the first free
//! candidate. Candidates are counted in a `u64`, so only a machine limit
//! ends it otherwise: every number up to `u64::MAX` reported occupied.
use vstd::prelude::*;
use crate::naming::{
    decimal, decimal_text, is_digit, lemma_split_without_digits, name_base, name_suffix,
    split_name_number, split_stem_number,
};
use crate::paths::{
    extension_of, file_name_of, same_path, paths_equal, file_stem_of, join_path, opt_text, parent_of, path_extension,
    path_file_name, path_file_stem, path_join, path_parent,
};

verus! {

/// The candidate numbered `n` in `parent`: `base`, then `n` in decimal, then
/// `tail`.
pub open spec fn candidate(parent: Seq<char>, base: Seq<char>, n: nat, tail: Seq<char>) -> Seq<
    char,
> {
    path_join(parent, base + decimal(n) + tail)
}

/// The oracle answered `taken` when asked about the path `p`.
pub open spec fn answered<F: Fn(&str) -> bool>(occupied: F, p: Seq<char>, taken: bool) -> bool {
    exists|s: &str| s@ == p && #[trigger] occupied.ensures((s,), taken)
}

/// `r` is what probing the candidates from `start` upwards ends with: the
/// first candidate reported free, with every one before it reported
/// occupied, or nothing once every number up to `u64::MAX` was occupied.
pub open spec fn first_free_from<F: Fn(&str) -> bool>(
    occupied: F,
    parent: Seq<char>,
    base: Seq<char>,
    tail: Seq<char>,
    start: nat,
    r: Option<Seq<char>>,
) -> bool {
    match r {
        Some(q) => exists|k: nat|
            {
                &&& start <= k <= u64::MAX
                &&& q == #[trigger] candidate(parent, base, k, tail)
                &&& answered(occupied, q, false)
                &&& forall|j: nat|
                    start <= j < k ==> answered(occupied, #[trigger] candidate(parent, base, j, tail), true)
            },
        None => forall|j: nat|
            start <= j <= u64::MAX ==> answered(occupied, #[trigger] candidate(parent, base, j, tail), true),
    }
}

/// The number that probing starts from, after a name's trailing number.
pub open spec fn first_number(suffix: u32) -> nat {
    if suffix > 0 {
        (suffix + 1) as nat
    } else {
        1
    }
}

/// The directory that a path's candidates are placed in.
pub open spec fn parent_dir(p: Seq<char>) -> Seq<char> {
    match path_parent(p) {
        Some(q) => q,
        None => Seq::empty(),
    }
}

/// The final name of a directory path, or `Untitled` where it has none.
pub open spec fn dir_name(p: Seq<char>) -> Seq<char> {
    match path_file_name(p) {
        Some(n) => n,
        None => "Untitled"@,
    }
}

/// The stem of a file path, or `file` where it has none.
pub open spec fn file_stem(p: Seq<char>) -> Seq<char> {
    match path_file_stem(p) {
        Some(n) => n,
        None => "file"@,
    }
}

/// The extension of a file path, empty where it has none.
pub open spec fn file_ext(p: Seq<char>) -> Seq<char> {
    match path_extension(p) {
        Some(e) => e,
        None => Seq::empty(),
    }
}

/// What follows the number in a file candidate: a dot and the extension,
/// or nothing where the extension is empty.
pub open spec fn ext_tail(ext: Seq<char>) -> Seq<char> {
    if ext.len() == 0 {
        Seq::empty()
    } else {
        seq!['.'] + ext
    }
}

/// `r` is the resolution of `desired`: the path itself where the oracle
/// reported it free, else the first free candidate.
pub open spec fn resolved<F: Fn(&str) -> bool>(
    occupied: F,
    desired: Seq<char>,
    base: Seq<char>,
    tail: Seq<char>,
    start: nat,
    r: Option<Seq<char>>,
) -> bool {
    ||| r == Some(desired) && answered(occupied, desired, false)
    ||| answered(occupied, desired, true) && first_free_from(
        occupied,
        parent_dir(desired),
        base,
        tail,
        start,
        r,
    )
}

/// The resolution of a directory path.
pub open spec fn dir_resolved<F: Fn(&str) -> bool>(
    occupied: F,
    desired: Seq<char>,
    r: Option<Seq<char>>,
) -> bool {
    resolved(
        occupied,
        desired,
        name_base(dir_name(desired)),
        Seq::empty(),
        first_number(name_suffix(dir_name(desired))),
        r,
    )
}

/// The resolution of a file path.
pub open spec fn file_resolved<F: Fn(&str) -> bool>(
    occupied: F,
    desired: Seq<char>,
    r: Option<Seq<char>>,
) -> bool {
    resolved(
        occupied,
        desired,
        name_base(file_stem(desired)),
        ext_tail(file_ext(desired)),
        first_number(name_suffix(file_stem(desired))),
        r,
    )
}

fn probe<F: Fn(&str) -> bool>(
    parent: &str,
    base: &str,
    tail: &str,
    n: u64,
    occupied: &F,
) -> (r: (String, bool))
    requires
        forall|s: &str| occupied.requires((s,)),
    ensures
        r.0@ == candidate(parent@, base@, n as nat, tail@),
        answered(*occupied, r.0@, r.1),
{
    let mut name = String::from_str(base);
    let digits = decimal_text(n);
    name.append(digits.as_str());
    name.append(tail);
    let path = join_path(parent, name.as_str());
    let taken = occupied(path.as_str());
    assert(answered(*occupied, path@, taken));
    (path, taken)
}

fn first_free<F: Fn(&str) -> bool>(
    parent: &str,
    base: &str,
    tail: &str,
    start: u64,
    occupied: &F,
) -> (r: Option<String>)
    requires
        forall|s: &str| occupied.requires((s,)),
    ensures
        first_free_from(*occupied, parent@, base@, tail@, start as nat, opt_text(r)),
{
    let mut n: u64 = start;
    while n < u64::MAX
        invariant
            forall|s: &str| occupied.requires((s,)),
            start <= n,
            forall|j: nat|
                start <= j < n ==> answered(
                    *occupied,
                    #[trigger] candidate(parent@, base@, j, tail@),
                    true,
                ),
        decreases u64::MAX - n,
    {
        let (path, taken) = probe(parent, base, tail, n, occupied);
        if !taken {
            return Some(path);
        }
        n = n + 1;
    }
    let (path, taken) = probe(parent, base, tail, n, occupied);
    if !taken {
        Some(path)
    } else {
        None
    }
}

/// The first path at or after `path` that the oracle reports free:
/// `path` itself where it is free, else `base + n` beside it, where `base`
/// is the directory's name without its trailing number and `n` counts up
/// from one past that number (from 1 where it is 0 or absent). `None` only
/// where every such number up to `u64::MAX` is occupied, a bound that no
/// directory can reach.
pub fn next_available_dir_path<F: Fn(&str) -> bool>(path: &str, occupied: F) -> (r: Option<String>)
    requires
        forall|s: &str| occupied.requires((s,)),
    ensures
        dir_resolved(occupied, path@, opt_text(r)),
{
    let taken = occupied(path);
    assert(answered(occupied, path@, taken));
    if !taken {
        return Some(path.to_owned());
    }
    let parent = match parent_of(path) {
        Some(q) => q,
        None => String::new(),
    };
    let name = match file_name_of(path) {
        Some(n) => n,
        None => String::from_str("Untitled"),
    };
    let (base, suffix) = split_name_number(name.as_str());
    let start: u64 = if suffix > 0 {
        suffix as u64 + 1
    } else {
        1
    };
    let tail = String::new();
    let r = first_free(parent.as_str(), base, tail.as_str(), start, &occupied);
    assert(parent@ == parent_dir(path@));
    assert(name@ == dir_name(path@));
    assert(start == first_number(name_suffix(dir_name(path@))));
    r
}

/// The first path at or after the file path `path` that the oracle reports
/// free: `path` itself where it is free, else `base + n` beside it, with
/// the extension kept as it was. `base` is the stem without its trailing
/// number and `n` counts up from one past that number (from 1 where it is 0
/// or absent). `None` only where every such number up to `u64::MAX` is
/// occupied, a bound that no directory can reach.
pub fn next_available_path<F: Fn(&str) -> bool>(path: &str, occupied: F) -> (r: Option<String>)
    requires
        forall|s: &str| occupied.requires((s,)),
    ensures
        file_resolved(occupied, path@, opt_text(r)),
{
    let taken = occupied(path);
    assert(answered(occupied, path@, taken));
    if !taken {
        return Some(path.to_owned());
    }
    let parent = match parent_of(path) {
        Some(q) => q,
        None => String::new(),
    };
    let stem = match file_stem_of(path) {
        Some(n) => n,
        None => String::from_str("file"),
    };
    let ext = match extension_of(path) {
        Some(e) => e,
        None => String::new(),
    };
    let tail = if ext.as_str().is_empty() {
        String::new()
    } else {
        proof {
            reveal_strlit(".");
        }
        let mut t = String::from_str(".");
        t.append(ext.as_str());
        t
    };
    assert(tail@ == ext_tail(file_ext(path@)));
    let (base, suffix) = split_stem_number(stem.as_str());
    let start: u64 = if suffix > 0 {
        suffix as u64 + 1
    } else {
        1
    };
    let r = first_free(parent.as_str(), base, tail.as_str(), start, &occupied);
    assert(parent@ == parent_dir(path@));
    assert(stem@ == file_stem(path@));
    assert(start == first_number(name_suffix(file_stem(path@))));
    r
}

/// Renames the file at `old_path` to `new_path`, or to the first free path
/// after it where `new_path` is occupied, and reports the path the file
/// now has.
///
/// Where the two paths are the same path, nothing is renamed and `old_path`
/// is reported as it was. Otherwise `rename` is handed the old path and the
/// resolved target, and its error, if any, is passed on. Only where every
/// candidate up to `u64::MAX` is occupied, which no directory can hold, is
/// there no target: the error says so and nothing is renamed.
pub fn fs_rename_file<F: Fn(&str) -> bool, G: FnOnce(&str, &str) -> Result<(), String>>(
    old_path: &str,
    new_path: &str,
    occupied: F,
    rename: G,
) -> (r: Result<String, String>)
    requires
        forall|s: &str| occupied.requires((s,)),
        forall|a: &str, b: &str| rename.requires((a, b)),
    ensures
        paths_equal(old_path@, new_path@) ==> r is Ok && r->Ok_0@ == old_path@,
        old_path@ == new_path@ ==> r is Ok && r->Ok_0@ == old_path@,
        !paths_equal(old_path@, new_path@) ==> exists|t: Option<Seq<char>>|
            {
                &&& #[trigger] file_resolved(occupied, new_path@, t)
                &&& match t {
                    Some(q) => renamed(rename, old_path@, q, r),
                    None => r is Err && r->Err_0@ == "no free path is left to rename to"@,
                }
            },
{
    if same_path(old_path, new_path) {
        return Ok(old_path.to_owned());
    }
    let target = next_available_path(new_path, occupied);
    assert(file_resolved(occupied, new_path@, opt_text(target)));
    match target {
        Some(t) => {
            let ts = t.as_str();
            let outcome = rename(old_path, ts);
            assert(rename.ensures((old_path, ts), outcome));
            match outcome {
                Ok(()) => Ok(t),
                Err(e) => Err(e),
            }
        },
        None => Err(no_free_path_message()),
    }
}

/// Renames the directory at `old_path` to `new_path`, or to the first free path
/// after it where `new_path` is occupied, and reports the path the
/// directory now has.
///
/// Where the two paths are the same path, nothing is renamed and `old_path`
/// is reported as it was. Otherwise `rename` is handed the old path and the
/// resolved target, and its error, if any, is passed on. Only where every
/// candidate up to `u64::MAX` is occupied, which no directory can hold, is
/// there no target: the error says so and nothing is renamed.
pub fn fs_rename_dir<F: Fn(&str) -> bool, G: FnOnce(&str, &str) -> Result<(), String>>(
    old_path: &str,
    new_path: &str,
    occupied: F,
    rename: G,
) -> (r: Result<String, String>)
    requires
        forall|s: &str| occupied.requires((s,)),
        forall|a: &str, b: &str| rename.requires((a, b)),
    ensures
        paths_equal(old_path@, new_path@) ==> r is Ok && r->Ok_0@ == old_path@,
        old_path@ == new_path@ ==> r is Ok && r->Ok_0@ == old_path@,
        !paths_equal(old_path@, new_path@) ==> exists|t: Option<Seq<char>>|
            {
                &&& #[trigger] dir_resolved(occupied, new_path@, t)
                &&& match t {
                    Some(q) => renamed(rename, old_path@, q, r),
                    None => r is Err && r->Err_0@ == "no free path is left to rename to"@,
                }
            },
{
    if same_path(old_path, new_path) {
        return Ok(old_path.to_owned());
    }
    let target = next_available_dir_path(new_path, occupied);
    assert(dir_resolved(occupied, new_path@, opt_text(target)));
    match target {
        Some(t) => {
            let ts = t.as_str();
            let outcome = rename(old_path, ts);
            assert(rename.ensures((old_path, ts), outcome));
            match outcome {
                Ok(()) => Ok(t),
                Err(e) => Err(e),
            }
        },
        None => Err(no_free_path_message()),
    }
}

/// `r` is what renaming `old` to `target` through `rename` reports: the
/// target where `rename` succeeded, its error where it failed.
pub open spec fn renamed<G: FnOnce(&str, &str) -> Result<(), String>>(
    rename: G,
    old: Seq<char>,
    target: Seq<char>,
    r: Result<String, String>,
) -> bool {
    exists|a: &str, b: &str, outcome: Result<(), String>|
        {
            &&& a@ == old
            &&& b@ == target
            &&& #[trigger] rename.ensures((a, b), outcome)
            &&& match outcome {
                Ok(_) => r is Ok && r->Ok_0@ == target,
                Err(e) => r == Err::<String, String>(e),
            }
        }
}

/// The error reported where every numbered candidate is occupied.
pub fn no_free_path_message() -> (r: String)
    ensures
        r@ == "no free path is left to rename to"@,
{
    String::from_str("no free path is left to rename to")
}

/// The oracle answers from a fixed set of occupied paths.
pub open spec fn answers_from<F: Fn(&str) -> bool>(occupied: F, taken: Set<Seq<char>>) -> bool {
    forall|s: &str, b: bool| #[trigger] occupied.ensures((s,), b) ==> b == taken.contains(s@)
}

proof fn lemma_answer_matches<F: Fn(&str) -> bool>(
    occupied: F,
    taken: Set<Seq<char>>,
    p: Seq<char>,
    b: bool,
)
    requires
        answers_from(occupied, taken),
        answered(occupied, p, b),
    ensures
        b == taken.contains(p),
{
    let s = choose|s: &str| s@ == p && #[trigger] occupied.ensures((s,), b);
}

proof fn lemma_first_free_is<F: Fn(&str) -> bool>(
    occupied: F,
    taken: Set<Seq<char>>,
    parent: Seq<char>,
    base: Seq<char>,
    tail: Seq<char>,
    start: nat,
    k: nat,
    r: Option<Seq<char>>,
)
    requires
        answers_from(occupied, taken),
        first_free_from(occupied, parent, base, tail, start, r),
        start <= k <= u64::MAX,
        forall|j: nat| start <= j < k ==> taken.contains(#[trigger] candidate(parent, base, j, tail)),
        !taken.contains(candidate(parent, base, k, tail)),
    ensures
        r == Some(candidate(parent, base, k, tail)),
{
    match r {
        Some(q) => {
            let m = choose|m: nat|
                {
                    &&& start <= m <= u64::MAX
                    &&& q == #[trigger] candidate(parent, base, m, tail)
                    &&& answered(occupied, q, false)
                    &&& forall|j: nat|
                        start <= j < m ==> answered(
                            occupied,
                            #[trigger] candidate(parent, base, j, tail),
                            true,
                        )
                };
            lemma_answer_matches(occupied, taken, q, false);
            if k < m {
                lemma_answer_matches(occupied, taken, candidate(parent, base, k, tail), true);
            } else if m < k {
                assert(taken.contains(candidate(parent, base, m, tail)));
            }
        },
        None => {
            lemma_answer_matches(occupied, taken, candidate(parent, base, k, tail), true);
        },
    }
}

/// With an oracle that answers from a fixed set of occupied paths, a path
/// has one resolution: two results that both meet the resolver's contract
/// are the same.
pub proof fn lemma_resolution_unique<F: Fn(&str) -> bool>(
    occupied: F,
    taken: Set<Seq<char>>,
    desired: Seq<char>,
    base: Seq<char>,
    tail: Seq<char>,
    start: nat,
    r1: Option<Seq<char>>,
    r2: Option<Seq<char>>,
)
    requires
        answers_from(occupied, taken),
        resolved(occupied, desired, base, tail, start, r1),
        resolved(occupied, desired, base, tail, start, r2),
    ensures
        r1 == r2,
{
    if taken.contains(desired) {
        if answered(occupied, desired, false) {
            lemma_answer_matches(occupied, taken, desired, false);
        }
        let parent = parent_dir(desired);
        match r1 {
            Some(q) => {
                let k = choose|k: nat|
                    {
                        &&& start <= k <= u64::MAX
                        &&& q == #[trigger] candidate(parent, base, k, tail)
                        &&& answered(occupied, q, false)
                        &&& forall|j: nat|
                            start <= j < k ==> answered(
                                occupied,
                                #[trigger] candidate(parent, base, j, tail),
                                true,
                            )
                    };
                lemma_answer_matches(occupied, taken, q, false);
                assert forall|j: nat| start <= j < k implies taken.contains(
                    #[trigger] candidate(parent, base, j, tail),
                ) by {
                    lemma_answer_matches(occupied, taken, candidate(parent, base, j, tail), true);
                }
                lemma_first_free_is(occupied, taken, parent, base, tail, start, k, r2);
            },
            None => {
                match r2 {
                    Some(q) => {
                        let k = choose|k: nat|
                            {
                                &&& start <= k <= u64::MAX
                                &&& q == #[trigger] candidate(parent, base, k, tail)
                                &&& answered(occupied, q, false)
                            };
                        lemma_answer_matches(occupied, taken, q, false);
                        lemma_answer_matches(occupied, taken, q, true);
                    },
                    None => {},
                }
            },
        }
    } else {
        if answered(occupied, desired, true) {
            lemma_answer_matches(occupied, taken, desired, true);
        }
    }
}

/// A desired directory path that is free is returned unchanged.
pub proof fn lemma_free_dir_path_kept<F: Fn(&str) -> bool>(
    occupied: F,
    taken: Set<Seq<char>>,
    desired: Seq<char>,
    r: Option<Seq<char>>,
)
    requires
        answers_from(occupied, taken),
        !taken.contains(desired),
        dir_resolved(occupied, desired, r),
    ensures
        r == Some(desired),
{
    if answered(occupied, desired, true) {
        lemma_answer_matches(occupied, taken, desired, true);
    }
}

/// A desired file path that is free is returned unchanged.
pub proof fn lemma_free_file_path_kept<F: Fn(&str) -> bool>(
    occupied: F,
    taken: Set<Seq<char>>,
    desired: Seq<char>,
    r: Option<Seq<char>>,
)
    requires
        answers_from(occupied, taken),
        !taken.contains(desired),
        file_resolved(occupied, desired, r),
    ensures
        r == Some(desired),
{
    if answered(occupied, desired, true) {
        lemma_answer_matches(occupied, taken, desired, true);
    }
}

proof fn lemma_small_decimals()
    ensures
        decimal(1) == seq!['1'],
        decimal(2) == seq!['2'],
        decimal(3) == seq!['3'],
{
}

/// Where a directory `name` without a trailing number is occupied and
/// `name1` beside it is free, the resolver returns `name1`.
pub proof fn lemma_occupied_dir_gets_one<F: Fn(&str) -> bool>(
    occupied: F,
    taken: Set<Seq<char>>,
    desired: Seq<char>,
    r: Option<Seq<char>>,
)
    requires
        answers_from(occupied, taken),
        dir_name(desired).len() == 0 || !is_digit(dir_name(desired).last()),
        taken.contains(desired),
        !taken.contains(path_join(parent_dir(desired), dir_name(desired) + seq!['1'])),
        dir_resolved(occupied, desired, r),
    ensures
        r == Some(path_join(parent_dir(desired), dir_name(desired) + seq!['1'])),
{
    let name = dir_name(desired);
    let parent = parent_dir(desired);
    lemma_split_without_digits(name);
    lemma_small_decimals();
    assert(name + decimal(1) + Seq::<char>::empty() =~= name + seq!['1']);
    if answered(occupied, desired, false) {
        lemma_answer_matches(occupied, taken, desired, false);
    }
    lemma_first_free_is(occupied, taken, parent, name, Seq::empty(), 1, 1, r);
}

/// Where a directory `name` without a trailing number is occupied, and so
/// are `name1` and `name2` beside it, while `name3` is free, the resolver
/// returns `name3`.
pub proof fn lemma_occupied_run_gets_next<F: Fn(&str) -> bool>(
    occupied: F,
    taken: Set<Seq<char>>,
    desired: Seq<char>,
    r: Option<Seq<char>>,
)
    requires
        answers_from(occupied, taken),
        dir_name(desired).len() == 0 || !is_digit(dir_name(desired).last()),
        taken.contains(desired),
        taken.contains(path_join(parent_dir(desired), dir_name(desired) + seq!['1'])),
        taken.contains(path_join(parent_dir(desired), dir_name(desired) + seq!['2'])),
        !taken.contains(path_join(parent_dir(desired), dir_name(desired) + seq!['3'])),
        dir_resolved(occupied, desired, r),
    ensures
        r == Some(path_join(parent_dir(desired), dir_name(desired) + seq!['3'])),
{
    let name = dir_name(desired);
    let parent = parent_dir(desired);
    let e = Seq::<char>::empty();
    lemma_split_without_digits(name);
    lemma_small_decimals();
    assert(name + decimal(1) + e =~= name + seq!['1']);
    assert(name + decimal(2) + e =~= name + seq!['2']);
    assert(name + decimal(3) + e =~= name + seq!['3']);
    if answered(occupied, desired, false) {
        lemma_answer_matches(occupied, taken, desired, false);
    }
    assert forall|j: nat| 1 <= j < 3 implies taken.contains(
        #[trigger] candidate(parent, name, j, e),
    ) by {
        if j == 2 {
            assert(candidate(parent, name, j, e) == path_join(parent, name + seq!['2']));
        } else {
            assert(candidate(parent, name, j, e) == path_join(parent, name + seq!['1']));
        }
    }
    lemma_first_free_is(occupied, taken, parent, name, e, 1, 3, r);
}

/// Every file candidate keeps the desired path's extension as it was: the
/// number goes between the stem's base and the dot.
pub proof fn lemma_file_candidate_keeps_extension(desired: Seq<char>, n: nat)
    requires
        file_ext(desired).len() > 0,
    ensures
        candidate(
            parent_dir(desired),
            name_base(file_stem(desired)),
            n,
            ext_tail(file_ext(desired)),
        ) == path_join(
            parent_dir(desired),
            name_base(file_stem(desired)) + decimal(n) + seq!['.'] + file_ext(desired),
        ),
{
    let b = name_base(file_stem(desired));
    let x = file_ext(desired);
    assert(b + decimal(n) + (seq!['.'] + x) =~= b + decimal(n) + seq!['.'] + x);
}

/// Where a file whose stem has no trailing number is occupied and the same
/// stem with `1` before the extension is free, the resolver returns that
/// path: `doc.txt` becomes `doc1.txt`.
pub proof fn lemma_occupied_file_gets_one<F: Fn(&str) -> bool>(
    occupied: F,
    taken: Set<Seq<char>>,
    desired: Seq<char>,
    r: Option<Seq<char>>,
)
    requires
        answers_from(occupied, taken),
        file_stem(desired).len() == 0 || !is_digit(file_stem(desired).last()),
        file_ext(desired).len() > 0,
        taken.contains(desired),
        !taken.contains(
            path_join(
                parent_dir(desired),
                file_stem(desired) + seq!['1', '.'] + file_ext(desired),
            ),
        ),
        file_resolved(occupied, desired, r),
    ensures
        r == Some(
            path_join(
                parent_dir(desired),
                file_stem(desired) + seq!['1', '.'] + file_ext(desired),
            ),
        ),
{
    let stem = file_stem(desired);
    let x = file_ext(desired);
    let parent = parent_dir(desired);
    lemma_split_without_digits(stem);
    lemma_small_decimals();
    assert(stem + decimal(1) + ext_tail(x) =~= stem + seq!['1', '.'] + x);
    if answered(occupied, desired, false) {
        lemma_answer_matches(occupied, taken, desired, false);
    }
    lemma_first_free_is(occupied, taken, parent, stem, ext_tail(x), 1, 1, r);
}

/// Renaming onto an occupied file path moves the file aside: to the one
/// path that the file resolver gives for that request, which differs from
/// the request itself.
pub proof fn lemma_colliding_rename_target<F: Fn(&str) -> bool>(
    occupied: F,
    taken: Set<Seq<char>>,
    new_path: Seq<char>,
    target: Option<Seq<char>>,
    resolution: Option<Seq<char>>,
)
    requires
        answers_from(occupied, taken),
        taken.contains(new_path),
        file_resolved(occupied, new_path, target),
        file_resolved(occupied, new_path, resolution),
    ensures
        target == resolution,
        target is Some ==> target->0 != new_path,
{
    lemma_resolution_unique(
        occupied,
        taken,
        new_path,
        name_base(file_stem(new_path)),
        ext_tail(file_ext(new_path)),
        first_number(name_suffix(file_stem(new_path))),
        target,
        resolution,
    );
    if answered(occupied, new_path, false) {
        lemma_answer_matches(occupied, taken, new_path, false);
    }
    if target is Some {
        let q = target->0;
        let parent = parent_dir(new_path);
        let base = name_base(file_stem(new_path));
        let tail = ext_tail(file_ext(new_path));
        let k = choose|k: nat|
            {
                &&& first_number(name_suffix(file_stem(new_path))) <= k <= u64::MAX
                &&& q == #[trigger] candidate(parent, base, k, tail)
                &&& answered(occupied, q, false)
            };
        lemma_answer_matches(occupied, taken, q, false);
    }
}

} // verus!
