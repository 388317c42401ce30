//! Grouped aggregation: the `GROUP BY ... SUM(..) / COUNT(DISTINCT ..)` rules
//! that the season rollups and the on/off splits are made of.
//!
//! A line carries a grouping key (a list of strings), a tag (the game a box
//! score row belongs to) and a list of nullable counting stats. Grouping sums
//! each column per key with SQL's `SUM` rule for NULLs (NULL values are
//! skipped; a group whose values are all NULL sums to NULL) and counts the
//! distinct tags of each group.

use vstd::prelude::*;

verus! {

/// One input row of an aggregation.
pub struct KeyedLine {
    /// The grouping key.
    pub key: Vec<String>,
    /// The value whose distinct occurrences are counted per group.
    pub tag: String,
    /// The summed columns; `None` is SQL NULL.
    pub values: Vec<Option<i16>>,
}

/// One output row of an aggregation.
pub struct GroupTotal {
    pub key: Vec<String>,
    /// Number of distinct tags among the group's lines.
    pub distinct_tags: usize,
    /// Column sums; `None` when every value of the column in the group is NULL.
    pub sums: Vec<Option<i128>>,
}

/// The view of a string list.
pub open spec fn strs_view(s: Seq<String>) -> Seq<Seq<char>> {
    s.map_values(|x: String| x@)
}

/// What an aggregation reads of a line.
pub struct LineView {
    pub key: Seq<Seq<char>>,
    pub tag: Seq<char>,
    pub values: Seq<Option<i16>>,
}

impl KeyedLine {
    pub open spec fn view(&self) -> LineView {
        LineView { key: strs_view(self.key@), tag: self.tag@, values: self.values@ }
    }
}

/// The views of a list of lines.
pub open spec fn line_views(lines: Seq<KeyedLine>) -> Seq<LineView> {
    lines.map_values(|l: KeyedLine| l.view())
}

impl GroupTotal {
    pub open spec fn key_view(&self) -> Seq<Seq<char>> {
        strs_view(self.key@)
    }
}

/// SQL addition of a nullable value to a nullable running sum, as `SUM` does it.
pub open spec fn add_opt(acc: Option<int>, x: Option<i16>) -> Option<int> {
    match x {
        None => acc,
        Some(v) => match acc {
            None => Some(v as int),
            Some(a) => Some(a + v),
        },
    }
}

/// An exact nullable integer as a mathematical one.
pub open spec fn opt_int(o: Option<i128>) -> Option<int> {
    match o {
        None => None,
        Some(v) => Some(v as int),
    }
}

/// `SUM` of column `c` over the lines whose key is `key`.
pub open spec fn column_sum(lines: Seq<LineView>, key: Seq<Seq<char>>, c: int) -> Option<int>
    decreases lines.len(),
{
    if lines.len() == 0 {
        None
    } else {
        let rest = column_sum(lines.drop_last(), key, c);
        if lines.last().key == key {
            add_opt(rest, lines.last().values[c])
        } else {
            rest
        }
    }
}

/// The set of tags of the lines whose key is `key`.
pub open spec fn tags_of(lines: Seq<LineView>, key: Seq<Seq<char>>) -> Set<Seq<char>>
    decreases lines.len(),
{
    if lines.len() == 0 {
        Set::empty()
    } else {
        let rest = tags_of(lines.drop_last(), key);
        if lines.last().key == key {
            rest.insert(lines.last().tag)
        } else {
            rest
        }
    }
}

/// Whether some line has the key `key`.
pub open spec fn has_key(lines: Seq<LineView>, key: Seq<Seq<char>>) -> bool {
    exists|i: int| 0 <= i < lines.len() && #[trigger] lines[i].key == key
}

/// Every line has `width` columns.
pub open spec fn lines_have_width(lines: Seq<LineView>, width: nat) -> bool {
    forall|i: int| 0 <= i < lines.len() ==> (#[trigger] lines[i]).values.len() == width
}

/// `groups` is the grouping of `lines`: one group per distinct key, in any
/// order, each with the column sums and the distinct-tag count of its lines.
pub open spec fn is_grouping(lines: Seq<LineView>, width: nat, groups: Seq<GroupTotal>) -> bool {
    &&& forall|g: int, h: int|
        0 <= g < h < groups.len() ==> (#[trigger] groups[g]).key_view() != (#[trigger] groups[h]).key_view()
    &&& forall|g: int| 0 <= g < groups.len() ==> has_key(lines, (#[trigger] groups[g]).key_view())
    &&& forall|k: Seq<Seq<char>>|
        #[trigger] has_key(lines, k) ==> exists|g: int| 0 <= g < groups.len() && (#[trigger] groups[g]).key_view() == k
    &&& forall|g: int|
        0 <= g < groups.len() ==> {
            &&& (#[trigger] groups[g]).sums.len() == width
            &&& groups[g].distinct_tags == tags_of(lines, groups[g].key_view()).len()
            &&& forall|c: int| 0 <= c < width ==> opt_int(#[trigger] groups[g].sums@[c]) == column_sum(lines, groups[g].key_view(), c)
        }
}

/// Whether two string lists are equal.
pub fn strs_equal(a: &Vec<String>, b: &Vec<String>) -> (r: bool)
    ensures
        r == (strs_view(a@) == strs_view(b@)),
{
    if a.len() != b.len() {
        assert(strs_view(a@).len() != strs_view(b@).len());
        return false;
    }
    let mut i: usize = 0;
    while i < a.len()
        invariant
            a.len() == b.len(),
            i <= a.len(),
            forall|j: int| 0 <= j < i ==> a@[j]@ == b@[j]@,
        decreases a.len() - i,
    {
        if a[i] != b[i] {
            assert(strs_view(a@)[i as int] != strs_view(b@)[i as int]);
            return false;
        }
        i = i + 1;
    }
    assert(strs_view(a@) =~= strs_view(b@));
    true
}

/// Whether `s` occurs in `v`.
pub fn contains_str(v: &Vec<String>, s: &String) -> (r: bool)
    ensures
        r == strs_view(v@).contains(s@),
{
    let mut i: usize = 0;
    while i < v.len()
        invariant
            i <= v.len(),
            forall|j: int| 0 <= j < i ==> v@[j]@ != s@,
        decreases v.len() - i,
    {
        if v[i] == *s {
            assert(strs_view(v@)[i as int] == s@);
            return true;
        }
        i = i + 1;
    }
    proof {
        if strs_view(v@).contains(s@) {
            let j = choose|j: int| 0 <= j < strs_view(v@).len() && strs_view(v@)[j] == s@;
            assert(v@[j]@ == s@);
        }
    }
    false
}

/// A copy of a string list.
pub fn clone_strs(v: &Vec<String>) -> (r: Vec<String>)
    ensures
        strs_view(r@) == strs_view(v@),
{
    let mut r: Vec<String> = Vec::new();
    let mut i: usize = 0;
    while i < v.len()
        invariant
            i <= v.len(),
            r.len() == i,
            forall|j: int| 0 <= j < i ==> r@[j]@ == v@[j]@,
        decreases v.len() - i,
    {
        r.push(v[i].clone());
        i = i + 1;
    }
    assert(strs_view(r@) =~= strs_view(v@));
    r
}

/// `SUM` step on an exact accumulator.
fn add_value(acc: Option<i128>, x: Option<i16>, bound: Ghost<int>) -> (r: Option<i128>)
    requires
        0 <= bound@ < 0x1_0000_0000_0000_0000_0000_0000,
        acc matches Some(a) ==> -bound@ * 32768 <= a <= bound@ * 32768,
    ensures
        opt_int(r) == add_opt(opt_int(acc), x),
        r matches Some(a) ==> -(bound@ + 1) * 32768 <= a <= (bound@ + 1) * 32768,
{
    match x {
        None => acc,
        Some(v) => match acc {
            None => Some(v as i128),
            Some(a) => Some(a + v as i128),
        },
    }
}


/// A group being accumulated.
struct GroupAcc {
    key: Vec<String>,
    sums: Vec<Option<i128>>,
    tags: Vec<String>,
}

/// Lines without the key `key` contribute nothing to its group.
proof fn lemma_absent_key(lines: Seq<LineView>, key: Seq<Seq<char>>, c: int)
    requires
        !has_key(lines, key),
    ensures
        column_sum(lines, key, c) is None,
        tags_of(lines, key) == Set::<Seq<char>>::empty(),
    decreases lines.len(),
{
    if lines.len() > 0 {
        let rest = lines.drop_last();
        assert(!has_key(rest, key)) by {
            if has_key(rest, key) {
                let j = choose|j: int| 0 <= j < rest.len() && #[trigger] rest[j].key == key;
                assert(lines[j] == rest[j]);
            }
        }
        assert(lines[lines.len() - 1].key != key);
        lemma_absent_key(rest, key, c);
    }
}

/// The tag set of a key is finite.
proof fn lemma_tags_finite(lines: Seq<LineView>, key: Seq<Seq<char>>)
    ensures
        tags_of(lines, key).finite(),
    decreases lines.len(),
{
    if lines.len() > 0 {
        lemma_tags_finite(lines.drop_last(), key);
    }
}

/// Position of the group with key `key`, if there is one.
fn find_group(accs: &Vec<GroupAcc>, key: &Vec<String>) -> (r: Option<usize>)
    ensures
        r matches Some(g) ==> g < accs.len() && strs_view(accs@[g as int].key@) == strs_view(key@),
        r is None ==> forall|g: int| 0 <= g < accs.len() ==> strs_view((#[trigger] accs@[g]).key@) != strs_view(key@),
{
    let mut g: usize = 0;
    while g < accs.len()
        invariant
            g <= accs.len(),
            forall|h: int| 0 <= h < g ==> strs_view((#[trigger] accs@[h]).key@) != strs_view(key@),
        decreases accs.len() - g,
    {
        if strs_equal(&accs[g].key, key) {
            return Some(g);
        }
        g = g + 1;
    }
    None
}

/// The accumulator `a` holds the group of its key over the lines `p`, whose
/// number is at most `n`.
spec fn acc_ok(a: GroupAcc, p: Seq<LineView>, width: nat, n: int) -> bool {
    let k = strs_view(a.key@);
    &&& a.sums.len() == width
    &&& strs_view(a.tags@).no_duplicates()
    &&& forall|t: Seq<char>| strs_view(a.tags@).contains(t) <==> #[trigger] tags_of(p, k).contains(t)
    &&& forall|c: int| 0 <= c < width ==> {
        &&& opt_int(#[trigger] a.sums@[c]) == column_sum(p, k, c)
        &&& (a.sums@[c] matches Some(v) ==> -n * 32768 <= v <= n * 32768)
    }
}

/// A line of another key leaves a group as it was.
proof fn lemma_other_line(a: GroupAcc, p: Seq<LineView>, line: LineView, width: nat, n: int)
    requires
        acc_ok(a, p, width, n),
        strs_view(a.key@) != line.key,
        0 <= n,
    ensures
        acc_ok(a, p.push(line), width, n + 1),
{
    let p2 = p.push(line);
    assert(p2.drop_last() =~= p);
    let k = strs_view(a.key@);
    assert forall|t: Seq<char>| strs_view(a.tags@).contains(t) <==> #[trigger] tags_of(p2, k).contains(t) by {
        assert(tags_of(p2, k) == tags_of(p, k));
    }
    assert forall|c: int| 0 <= c < width implies opt_int(#[trigger] a.sums@[c]) == column_sum(p2, k, c) by {
        assert(column_sum(p2, k, c) == column_sum(p, k, c));
    }
}

/// Groups `lines` by key: one group per distinct key, with per-column `SUM`s
/// (NULLs skipped, all-NULL gives NULL) and the count of distinct tags.
pub fn group_lines(lines: &Vec<KeyedLine>, width: usize) -> (groups: Vec<GroupTotal>)
    requires
        lines_have_width(line_views(lines@), width as nat),
    ensures
        is_grouping(line_views(lines@), width as nat, groups@),
{
    let ghost lv = line_views(lines@);
    let mut accs: Vec<GroupAcc> = Vec::new();
    let mut i: usize = 0;
    while i < lines.len()
        invariant
            i <= lines.len(),
            lines_have_width(lv, width as nat),
            lv == line_views(lines@),
            forall|g: int, h: int|
                0 <= g < h < accs.len() ==> strs_view((#[trigger] accs@[g]).key@) != strs_view((#[trigger] accs@[h]).key@),
            forall|g: int| 0 <= g < accs.len() ==> has_key(lv.subrange(0, i as int), strs_view((#[trigger] accs@[g]).key@)),
            forall|k: Seq<Seq<char>>|
                #[trigger] has_key(lv.subrange(0, i as int), k) ==> exists|g: int| 0 <= g < accs.len() && strs_view((#[trigger] accs@[g]).key@) == k,
            forall|g: int| 0 <= g < accs.len() ==> acc_ok(#[trigger] accs@[g], lv.subrange(0, i as int), width as nat, i as int),
        decreases lines.len() - i,
    {
        let line = &lines[i];
        let ghost p = lv.subrange(0, i as int);
        let ghost p2 = lv.subrange(0, i as int + 1);
        let ghost k = line.view().key;
        proof {
            assert(p2 =~= p.push(lv[i as int]));
        }
        let found = find_group(&accs, &line.key);
        let gi: usize = match found {
            Some(g) => g,
            None => {
                proof {
                    if has_key(p, k) {
                        let g = choose|g: int| 0 <= g < accs.len() && strs_view((#[trigger] accs@[g]).key@) == k;
                    }
                }
                let mut sums: Vec<Option<i128>> = Vec::new();
                let mut c: usize = 0;
                while c < width
                    invariant
                        c <= width,
                        sums.len() == c,
                        forall|d: int| 0 <= d < c ==> #[trigger] sums@[d] is None,
                    decreases width - c,
                {
                    sums.push(None);
                    c = c + 1;
                }
                let ghost before_push = accs@;
                accs.push(GroupAcc { key: clone_strs(&line.key), sums, tags: Vec::new() });
                proof {
                    let a = accs@[accs.len() - 1];
                    assert(strs_view(a.tags@) =~= Seq::<Seq<char>>::empty());
                    lemma_absent_key(p, k, 0);
                    assert forall|d: int| 0 <= d < width implies opt_int(#[trigger] a.sums@[d]) == column_sum(p, k, d) by {
                        lemma_absent_key(p, k, d);
                    }
                    assert(acc_ok(a, p, width as nat, i as int));
                    assert forall|g: int| 0 <= g < before_push.len() implies accs@[g] == before_push[g] by {}
                }
                accs.len() - 1
            },
        };
        let ghost before = accs@;
        let mut acc = accs.remove(gi);
        proof {
            assert(acc == before[gi as int]);
            assert(acc_ok(acc, p, width as nat, i as int));
        }
        let mut new_sums: Vec<Option<i128>> = Vec::new();
        let mut c: usize = 0;
        while c < width
            invariant
                c <= width,
                i < lines.len(),
                acc.sums.len() == width,
                line.values.len() == width,
                new_sums.len() == c,
                forall|d: int| 0 <= d < width ==> (#[trigger] acc.sums@[d] matches Some(a) ==> -(i as int) * 32768 <= a <= (i as int) * 32768),
                forall|d: int| 0 <= d < c ==> opt_int(#[trigger] new_sums@[d]) == add_opt(opt_int(acc.sums@[d]), line.values@[d]),
                forall|d: int| 0 <= d < c ==> (#[trigger] new_sums@[d] matches Some(a) ==> -(i as int + 1) * 32768 <= a <= (i as int + 1) * 32768),
            decreases width - c,
        {
            new_sums.push(add_value(acc.sums[c], line.values[c], Ghost(i as int)));
            c = c + 1;
        }
        let ghost old_acc = acc;
        let has_tag = contains_str(&acc.tags, &line.tag);
        if !has_tag {
            acc.tags.push(line.tag.clone());
            proof {
                assert(strs_view(acc.tags@) =~= strs_view(old_acc.tags@).push(line.view().tag));
            }
        }
        acc.sums = new_sums;
        proof {
            let kk = strs_view(acc.key@);
            assert(kk == k);
            assert(p.push(lv[i as int]).drop_last() =~= p);
            assert(tags_of(p2, kk) == tags_of(p, kk).insert(line.view().tag));
            assert forall|t: Seq<char>| strs_view(acc.tags@).contains(t) <==> #[trigger] tags_of(p2, kk).contains(t) by {
                assert(strs_view(old_acc.tags@).contains(t) <==> tags_of(p, kk).contains(t));
                if has_tag {
                    assert(acc.tags@ == old_acc.tags@);
                    assert(tags_of(p, kk).contains(line.view().tag));
                } else {
                    assert(strs_view(acc.tags@) == strs_view(old_acc.tags@).push(line.view().tag));
                    vstd::seq_lib::lemma_seq_contains_after_push(strs_view(old_acc.tags@), line.view().tag, t);
                }
            }
            assert forall|d: int| 0 <= d < width implies opt_int(#[trigger] acc.sums@[d]) == column_sum(p2, kk, d) by {
                assert(column_sum(p2, kk, d) == add_opt(column_sum(p, kk, d), line.values@[d]));
            }
            assert(acc_ok(acc, p2, width as nat, i as int + 1));
        }
        accs.insert(gi, acc);
        proof {
            assert(accs@ =~= before.update(gi as int, acc));
            assert forall|g: int| 0 <= g < accs.len() implies acc_ok(#[trigger] accs@[g], p2, width as nat, i as int + 1) by {
                if g != gi {
                    lemma_other_line(before[g], p, lv[i as int], width as nat, i as int);
                }
            }
            assert forall|g: int| 0 <= g < accs.len() implies has_key(p2, strs_view((#[trigger] accs@[g]).key@)) by {
                if g == gi {
                    assert(p2[i as int].key == k);
                } else {
                    let j = choose|j: int| 0 <= j < p.len() && #[trigger] p[j].key == strs_view(accs@[g].key@);
                    assert(p2[j] == p[j]);
                }
            }
            assert forall|kk: Seq<Seq<char>>|
                #[trigger] has_key(p2, kk) implies exists|g: int| 0 <= g < accs.len() && strs_view((#[trigger] accs@[g]).key@) == kk by {
                let j = choose|j: int| 0 <= j < p2.len() && #[trigger] p2[j].key == kk;
                if j == i {
                    assert(strs_view(accs@[gi as int].key@) == kk);
                } else {
                    assert(p[j] == p2[j]);
                    assert(has_key(p, kk));
                    let g = choose|g: int| 0 <= g < before.len() && strs_view((#[trigger] before[g]).key@) == kk;
                    assert(strs_view(accs@[g].key@) == kk);
                }
            }
        }
        i = i + 1;
    }
    proof {
        assert(lv.subrange(0, lines.len() as int) =~= lv);
    }
    let mut groups: Vec<GroupTotal> = Vec::new();
    let ghost all_accs = accs@;
    let mut accs = accs;
    while accs.len() > 0
        invariant
            groups.len() + accs.len() == all_accs.len(),
            forall|g: int| 0 <= g < accs.len() ==> accs@[g] == all_accs[g],
            forall|g: int|
                0 <= g < groups.len() ==> {
                    let a = all_accs[all_accs.len() - 1 - g];
                    &&& strs_view((#[trigger] groups@[g]).key@) == strs_view(a.key@)
                    &&& groups@[g].sums@ == a.sums@
                    &&& groups@[g].distinct_tags == a.tags.len()
                },
        decreases accs.len(),
    {
        let a = accs.pop().unwrap();
        groups.push(GroupTotal { key: a.key, distinct_tags: a.tags.len(), sums: a.sums });
    }
    proof {
        let n = all_accs.len();
        assert forall|g: int| 0 <= g < groups.len() implies
            (#[trigger] groups@[g]).distinct_tags == tags_of(lv, groups@[g].key_view()) .len() by {
            let a = all_accs[n - 1 - g];
            assert(acc_ok(a, lv, width as nat, lines.len() as int));
            let tv = strs_view(a.tags@);
            lemma_tags_finite(lv, strs_view(a.key@));
            tv.unique_seq_to_set();
            assert(tv.to_set() =~= tags_of(lv, strs_view(a.key@)));
        }
        assert forall|g: int, c: int| 0 <= g < groups.len() && 0 <= c < width implies
            opt_int(#[trigger] groups@[g].sums@[c]) == column_sum(lv, groups@[g].key_view(), c) by {
            let a = all_accs[n - 1 - g];
            assert(acc_ok(a, lv, width as nat, lines.len() as int));
        }
        assert forall|g: int, h: int| 0 <= g < h < groups.len() implies
            (#[trigger] groups@[g]).key_view() != (#[trigger] groups@[h]).key_view() by {
            assert(all_accs[n - 1 - h] == all_accs[n - 1 - h]);
        }
        assert forall|g: int| 0 <= g < groups.len() implies has_key(lv, (#[trigger] groups@[g]).key_view()) by {
            assert(all_accs[n - 1 - g] == all_accs[n - 1 - g]);
        }
        assert forall|k: Seq<Seq<char>>| #[trigger] has_key(lv, k) implies
            exists|g: int| 0 <= g < groups.len() && (#[trigger] groups@[g]).key_view() == k by {
            let h = choose|h: int| 0 <= h < all_accs.len() && strs_view((#[trigger] all_accs[h]).key@) == k;
            assert(groups@[n - 1 - h].key_view() == k);
        }
    }
    groups
}

} // verus!
