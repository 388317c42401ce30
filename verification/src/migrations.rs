//! The migration plan of the store: which migration files to apply, and in
//! what order.
//!
//! Migrations are the `.sql` files of the migrations directory. They are
//! applied in lexicographic order of their file names, each at most once:
//! a migration whose name is already recorded as applied is skipped, so
//! migrating twice is a no-op.

use vstd::prelude::*;
use vstd::string::StrSliceExecFns;

use crate::aggregate::{contains_str, strs_view};

verus! {

/// A migration file: its file name and its SQL text.
#[derive(Debug, Clone, PartialEq, Eq)]
pub struct MigrationFile {
    pub name: String,
    pub sql: String,
}

/// Whether a file name has the extension `sql`: it ends in `.sql` and the
/// part before that dot is not empty (a name such as `.sql` has no extension).
pub open spec fn is_sql_name(name: Seq<char>) -> bool {
    &&& name.len() > 4
    &&& name[name.len() - 4] == '.'
    &&& name[name.len() - 3] == 's'
    &&& name[name.len() - 2] == 'q'
    &&& name[name.len() - 1] == 'l'
}

/// Strict lexicographic order of character strings (by code point, which is
/// also the byte order of their UTF-8 encodings).
pub open spec fn lex_lt(a: Seq<char>, b: Seq<char>) -> bool
    decreases a.len(),
{
    if b.len() == 0 {
        false
    } else if a.len() == 0 {
        true
    } else if a[0] != b[0] {
        (a[0] as int) < (b[0] as int)
    } else {
        lex_lt(a.drop_first(), b.drop_first())
    }
}

/// `lex_lt` is irreflexive.
pub proof fn lemma_lex_irreflexive(a: Seq<char>)
    ensures
        !lex_lt(a, a),
    decreases a.len(),
{
    if a.len() > 0 {
        lemma_lex_irreflexive(a.drop_first());
    }
}

/// `lex_lt` is total on distinct strings and asymmetric.
pub proof fn lemma_lex_total(a: Seq<char>, b: Seq<char>)
    ensures
        a != b ==> lex_lt(a, b) || lex_lt(b, a),
        !(lex_lt(a, b) && lex_lt(b, a)),
    decreases a.len(),
{
    if a.len() > 0 && b.len() > 0 && a[0] == b[0] {
        lemma_lex_total(a.drop_first(), b.drop_first());
        if a.drop_first() == b.drop_first() {
            assert forall|i: int| 0 <= i < a.len() implies a[i] == b[i] by {
                if i > 0 {
                    assert(a[i] == a.drop_first()[i - 1]);
                    assert(b[i] == b.drop_first()[i - 1]);
                }
            }
            assert(a =~= b);
        }
    }
    if a.len() == 0 && b.len() == 0 {
        assert(a =~= b);
    }
    if a.len() > 0 && b.len() > 0 && a[0] != b[0] {
        assert((a[0] as int) != (b[0] as int));
    }
}

/// `lex_lt` is transitive.
pub proof fn lemma_lex_transitive(a: Seq<char>, b: Seq<char>, c: Seq<char>)
    requires
        lex_lt(a, b),
        lex_lt(b, c),
    ensures
        lex_lt(a, c),
    decreases a.len(),
{
    if a.len() > 0 && a[0] == b[0] && b[0] == c[0] {
        lemma_lex_transitive(a.drop_first(), b.drop_first(), c.drop_first());
    }
}

/// Comparing after a common prefix of length `i`.
proof fn lemma_lex_skip(a: Seq<char>, b: Seq<char>, i: int)
    requires
        0 <= i <= a.len(),
        i <= b.len(),
        forall|j: int| 0 <= j < i ==> a[j] == b[j],
    ensures
        lex_lt(a, b) == lex_lt(a.skip(i), b.skip(i)),
    decreases i,
{
    if i == 0 {
        assert(a.skip(0) =~= a);
        assert(b.skip(0) =~= b);
    } else {
        lemma_lex_skip(a.drop_first(), b.drop_first(), i - 1);
        assert(a.drop_first().skip(i - 1) =~= a.skip(i));
        assert(b.drop_first().skip(i - 1) =~= b.skip(i));
    }
}

/// `k` is the first position at which `a` and `b` differ.
pub open spec fn first_difference(a: Seq<char>, b: Seq<char>, k: int) -> bool {
    &&& 0 <= k < a.len()
    &&& k < b.len()
    &&& a[k] != b[k]
    &&& forall|j: int| 0 <= j < k ==> a[j] == b[j]
}

/// `a` comes before `b` by code points: at the first position where they
/// differ `a` has the smaller character, or `a` is a proper prefix of `b`.
pub open spec fn code_point_before(a: Seq<char>, b: Seq<char>) -> bool {
    ||| exists|k: int| #[trigger] first_difference(a, b, k) && (a[k] as int) < (b[k] as int)
    ||| (a.len() < b.len() && a =~= b.subrange(0, a.len() as int))
}

/// The lexicographic order of names is the plain code-point order: the name
/// with the smaller character at the first differing position comes first,
/// and a proper prefix comes before its extensions.
pub proof fn lemma_lex_lt_is_code_point_order(a: Seq<char>, b: Seq<char>)
    ensures
        lex_lt(a, b) <==> code_point_before(a, b),
{
    let n = if a.len() < b.len() { a.len() } else { b.len() };
    let k = common_prefix_len(a, b, 0);
    lemma_lex_skip(a, b, k);
    if k < n {
        assert(first_difference(a, b, k));
        assert(a.skip(k)[0] == a[k]);
        assert(b.skip(k)[0] == b[k]);
        assert forall|k2: int| #[trigger] first_difference(a, b, k2) implies k2 == k by {
            if k2 < k {
                assert(a[k2] == b[k2]);
            } else if k2 > k {
                assert(a[k] == b[k]);
            }
        }
        if a.len() < b.len() && a =~= b.subrange(0, a.len() as int) {
            assert(a[k] == b[k]);
        }
    } else {
        assert forall|k2: int| #[trigger] first_difference(a, b, k2) implies false by {
            assert(a[k2] == b[k2]);
        }
        if a.len() < b.len() {
            assert(a =~= b.subrange(0, a.len() as int));
        }
    }
}

/// The length of the longest common prefix of `a` and `b`, found by
/// extending the common prefix of length `i`.
proof fn common_prefix_len(a: Seq<char>, b: Seq<char>, i: int) -> (k: int)
    requires
        0 <= i <= a.len(),
        i <= b.len(),
        forall|j: int| 0 <= j < i ==> a[j] == b[j],
    ensures
        i <= k <= a.len(),
        k <= b.len(),
        forall|j: int| 0 <= j < k ==> a[j] == b[j],
        k == a.len() || k == b.len() || a[k] != b[k],
    decreases a.len() - i,
{
    if i == a.len() || i == b.len() || a[i] != b[i] {
        i
    } else {
        common_prefix_len(a, b, i + 1)
    }
}

/// Whether `a` comes strictly before `b` in lexicographic order.
pub fn name_lt(a: &str, b: &str) -> (r: bool)
    ensures
        r == lex_lt(a@, b@),
        r == code_point_before(a@, b@),
{
    proof {
        lemma_lex_lt_is_code_point_order(a@, b@);
    }
    let la = a.unicode_len();
    let lb = b.unicode_len();
    let mut i: usize = 0;
    while i < la && i < lb
        invariant
            la == a@.len(),
            lb == b@.len(),
            i <= la,
            i <= lb,
            forall|j: int| 0 <= j < i ==> a@[j] == b@[j],
        decreases la - i,
    {
        let ca = a.get_char(i);
        let cb = b.get_char(i);
        if ca != cb {
            proof {
                lemma_lex_skip(a@, b@, i as int);
                assert(a@.skip(i as int)[0] == ca);
                assert(b@.skip(i as int)[0] == cb);
                lemma_lex_lt_is_code_point_order(a@, b@);
            }
            return (ca as u32) < (cb as u32);
        }
        i = i + 1;
    }
    proof {
        lemma_lex_skip(a@, b@, i as int);
        lemma_lex_lt_is_code_point_order(a@, b@);
    }
    i < lb
}

/// Whether the file name `name` has the extension `sql`.
pub fn is_sql_file_name(name: &str) -> (r: bool)
    ensures
        r == is_sql_name(name@),
        r <==> name@.len() > 4 && name@.subrange(name@.len() - 4, name@.len() as int) == seq!['.', 's', 'q', 'l'],
{
    proof {
        if name@.len() > 4 {
            let t = name@.subrange(name@.len() - 4, name@.len() as int);
            if is_sql_name(name@) {
                assert(t =~= seq!['.', 's', 'q', 'l']);
            }
            if t == seq!['.', 's', 'q', 'l'] {
                assert(t[0] == '.' && t[1] == 's' && t[2] == 'q' && t[3] == 'l');
            }
        }
    }
    let n = name.unicode_len();
    if n <= 4 {
        return false;
    }
    name.get_char(n - 4) == '.' && name.get_char(n - 3) == 's' && name.get_char(n - 2) == 'q'
        && name.get_char(n - 1) == 'l'
}


/// Some file of `files` is named `n`.
pub open spec fn has_file_named(files: Seq<MigrationFile>, n: Seq<char>) -> bool {
    exists|j: int| 0 <= j < files.len() && #[trigger] files[j].name@ == n
}

/// The migration named `n` is a `.sql` file of `files` that is not applied yet.
pub open spec fn is_pending(files: Seq<MigrationFile>, applied: Set<Seq<char>>, n: Seq<char>) -> bool {
    &&& is_sql_name(n)
    &&& !applied.contains(n)
    &&& has_file_named(files, n)
}

/// Names strictly increase along `s`: it is in lexicographic order of names
/// and no name occurs twice.
pub open spec fn names_increasing(s: Seq<MigrationFile>) -> bool {
    forall|i: int, j: int| 0 <= i < j < s.len() ==> lex_lt((#[trigger] s[i]).name@, (#[trigger] s[j]).name@)
}

/// The set of the names of a sequence of migrations.
pub open spec fn names_of(s: Seq<MigrationFile>) -> Set<Seq<char>> {
    Set::new(|n: Seq<char>| has_file_named(s, n))
}

/// `plan` is the list of migrations to apply to a store that has applied the
/// migrations named in `applied`, given the files `files` of the migrations
/// directory: one file for each pending name, in lexicographic order of
/// names.
pub open spec fn is_migration_plan(files: Seq<MigrationFile>, applied: Set<Seq<char>>, plan: Seq<MigrationFile>) -> bool {
    &&& names_increasing(plan)
    &&& forall|i: int| 0 <= i < plan.len() ==> files.contains(#[trigger] plan[i])
    &&& forall|n: Seq<char>| #[trigger] has_file_named(plan, n) <==> is_pending(files, applied, n)
}

/// The migrations to apply, in order: the `.sql` files of `files` whose name is
/// not in `applied`, sorted by file name, each name once.
pub fn plan_migrations(files: Vec<MigrationFile>, applied: &Vec<String>) -> (plan: Vec<MigrationFile>)
    ensures
        is_migration_plan(files@, strs_view(applied@).to_set(), plan@),
        forall|i: int, j: int| 0 <= i < j < plan.len() ==> code_point_before((#[trigger] plan@[i]).name@, (#[trigger] plan@[j]).name@),
{
    let ghost orig = files@;
    let ghost done_set = strs_view(applied@).to_set();
    let mut files = files;
    let mut out: Vec<MigrationFile> = Vec::new();
    while files.len() > 0
        invariant
            files.len() <= orig.len(),
            files@ == orig.subrange(0, files.len() as int),
            done_set == strs_view(applied@).to_set(),
            names_increasing(out@),
            forall|i: int| 0 <= i < out.len() ==> orig.contains(#[trigger] out@[i]),
            forall|n: Seq<char>| #[trigger] has_file_named(out@, n)
                <==> is_pending(orig.subrange(files.len() as int, orig.len() as int), done_set, n),
        decreases files.len(),
    {
        let ghost before = out@;
        let ghost rest_before = orig.subrange(files.len() as int, orig.len() as int);
        let f = files.pop().unwrap();
        let ghost rest = orig.subrange(files.len() as int, orig.len() as int);
        proof {
            assert(orig[files.len() as int] == f);
            assert(rest =~= seq![f] + rest_before);
            assert(orig.contains(f)) by {
                assert(orig[files.len() as int] == f);
            }
            assert forall|n: Seq<char>| has_file_named(rest, n) <==> (f.name@ == n || has_file_named(rest_before, n)) by {
                if has_file_named(rest_before, n) {
                    let j = choose|j: int| 0 <= j < rest_before.len() && #[trigger] rest_before[j].name@ == n;
                    assert(rest[j + 1] == rest_before[j]);
                }
                if f.name@ == n {
                    assert(rest[0] == f);
                }
                if has_file_named(rest, n) {
                    let j = choose|j: int| 0 <= j < rest.len() && #[trigger] rest[j].name@ == n;
                    if j > 0 {
                        assert(rest_before[j - 1] == rest[j]);
                    }
                }
            }
        }
        let is_sql = is_sql_file_name(f.name.as_str());
        let is_applied = contains_str(applied, &f.name);
        if is_sql && !is_applied {
            let mut p: usize = 0;
            while p < out.len() && name_lt(out[p].name.as_str(), f.name.as_str())
                invariant
                    p <= out.len(),
                    forall|q: int| 0 <= q < p ==> lex_lt((#[trigger] out@[q]).name@, f.name@),
                decreases out.len() - p,
            {
                p = p + 1;
            }
            let present = p < out.len() && out[p].name == f.name;
            if !present {
                proof {
                    if p < out.len() {
                        lemma_lex_total(out@[p as int].name@, f.name@);
                        assert(lex_lt(f.name@, out@[p as int].name@));
                    }
                }
                out.insert(p, f);
                proof {
                    assert forall|i: int, j: int| 0 <= i < j < out.len() implies lex_lt((#[trigger] out@[i]).name@, (#[trigger] out@[j]).name@) by {
                        if i < p && j == p {
                        } else if i < p && j > p {
                            assert(out@[j] == before[j - 1]);
                        } else if i == p && j > p {
                            assert(out@[j] == before[j - 1]);
                            if j - 1 > p {
                                lemma_lex_transitive(f.name@, before[p as int].name@, before[j - 1].name@);
                            }
                        } else if i > p {
                            assert(out@[i] == before[i - 1]);
                            assert(out@[j] == before[j - 1]);
                        }
                    }
                    assert forall|i: int| 0 <= i < out.len() implies orig.contains(#[trigger] out@[i]) by {
                        if i < p {
                        } else if i == p {
                        } else {
                            assert(out@[i] == before[i - 1]);
                        }
                    }
                    assert forall|n: Seq<char>| #[trigger] has_file_named(out@, n) <==> (f.name@ == n || has_file_named(before, n)) by {
                        if has_file_named(before, n) {
                            let j = choose|j: int| 0 <= j < before.len() && #[trigger] before[j].name@ == n;
                            if j < p {
                                assert(out@[j] == before[j]);
                            } else {
                                assert(out@[j + 1] == before[j]);
                            }
                        }
                        if f.name@ == n {
                            assert(out@[p as int] == f);
                        }
                        if has_file_named(out@, n) {
                            let j = choose|j: int| 0 <= j < out.len() && #[trigger] out@[j].name@ == n;
                            if j < p {
                                assert(before[j] == out@[j]);
                            } else if j > p {
                                assert(before[j - 1] == out@[j]);
                            }
                        }
                    }
                }
            } else {
                proof {
                    assert(has_file_named(before, f.name@)) by {
                        assert(before[p as int].name@ == f.name@);
                    }
                }
            }
        }
    }
    proof {
        assert(orig.subrange(0, orig.len() as int) =~= orig);
        lemma_plan_in_code_point_order(out@);
    }
    out
}

/// A plan lists its migrations in code-point order of their names: at the
/// first position where two planned names differ, the earlier one has the
/// smaller character (or it is a proper prefix of the later one).
pub proof fn lemma_plan_in_code_point_order(plan: Seq<MigrationFile>)
    requires
        names_increasing(plan),
    ensures
        forall|i: int, j: int| 0 <= i < j < plan.len() ==> code_point_before((#[trigger] plan[i]).name@, (#[trigger] plan[j]).name@),
{
    assert forall|i: int, j: int| 0 <= i < j < plan.len() implies code_point_before((#[trigger] plan[i]).name@, (#[trigger] plan[j]).name@) by {
        lemma_lex_lt_is_code_point_order(plan[i].name@, plan[j].name@);
    }
}

/// Migrating twice is a no-op: once the migrations of a plan are recorded as
/// applied, the plan for the same files is empty.
pub proof fn lemma_migrate_twice_is_noop(
    files: Seq<MigrationFile>,
    applied: Set<Seq<char>>,
    plan: Seq<MigrationFile>,
    second: Seq<MigrationFile>,
)
    requires
        is_migration_plan(files, applied, plan),
        is_migration_plan(files, applied.union(names_of(plan)), second),
    ensures
        second.len() == 0,
{
    if second.len() > 0 {
        let n = second[0].name@;
        assert(has_file_named(second, n));
        assert(is_pending(files, applied.union(names_of(plan)), n));
        assert(is_pending(files, applied, n));
        assert(has_file_named(plan, n));
        assert(names_of(plan).contains(n));
    }
}

/// After a plan is applied, every `.sql` file of the directory is applied.
pub proof fn lemma_migrate_applies_every_sql_file(
    files: Seq<MigrationFile>,
    applied: Set<Seq<char>>,
    plan: Seq<MigrationFile>,
    i: int,
)
    requires
        is_migration_plan(files, applied, plan),
        0 <= i < files.len(),
        is_sql_name(files[i].name@),
    ensures
        applied.union(names_of(plan)).contains(files[i].name@),
{
    let n = files[i].name@;
    assert(has_file_named(files, n));
    if !applied.contains(n) {
        assert(is_pending(files, applied, n));
        assert(names_of(plan).contains(n));
    }
}

/// Files whose name lacks the `sql` extension are never applied.
pub proof fn lemma_non_sql_files_are_ignored(
    files: Seq<MigrationFile>,
    applied: Set<Seq<char>>,
    plan: Seq<MigrationFile>,
    i: int,
)
    requires
        is_migration_plan(files, applied, plan),
        0 <= i < plan.len(),
    ensures
        is_sql_name(plan[i].name@),
        !applied.contains(plan[i].name@),
{
    assert(has_file_named(plan, plan[i].name@));
}

} // verus!
