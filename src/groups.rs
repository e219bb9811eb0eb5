//! Groups of track positions under a key, kept in the order in which their
//! keys were first seen.
use vstd::prelude::*;
use crate::text::{edit_distance, edit_distance_of, normalize_genre, normalized, string_eq_str};

verus! {

/// Largest edit distance, between normalized tags, at which a genre tag joins
/// an existing group.
pub const GENRE_MERGE_DISTANCE: usize = 2;

/// A key and the positions of the tracks filed under it, in filing order.
#[derive(Clone, Debug)]
pub struct Group {
    pub key: String,
    pub members: Vec<usize>,
}

/// The abstract content of a group.
pub struct GroupModel {
    pub key: Seq<char>,
    pub members: Seq<usize>,
}

impl View for Group {
    type V = GroupModel;

    open spec fn view(&self) -> GroupModel {
        GroupModel { key: self.key@, members: self.members@ }
    }
}

pub open spec fn groups_view(gs: Seq<Group>) -> Seq<GroupModel> {
    gs.map_values(|g: Group| g@)
}

/// Position of the first group that `p` accepts, or -1 if there is none.
pub open spec fn first_where(gs: Seq<GroupModel>, p: spec_fn(GroupModel) -> bool) -> int
    decreases gs.len(),
{
    if gs.len() == 0 {
        -1
    } else {
        let k = first_where(gs.drop_last(), p);
        if k >= 0 {
            k
        } else if p(gs.last()) {
            gs.len() - 1
        } else {
            -1
        }
    }
}

/// Accepts the group whose key is exactly `key`.
pub open spec fn key_is(key: Seq<char>) -> spec_fn(GroupModel) -> bool {
    |g: GroupModel| g.key == key
}

/// Accepts a group whose normalized key lies within the merge distance of the
/// normalized tag.
pub open spec fn genre_near(tag: Seq<char>) -> spec_fn(GroupModel) -> bool {
    |g: GroupModel| edit_distance_of(normalized(tag), normalized(g.key)) <= GENRE_MERGE_DISTANCE
}

/// Files position `i` into the first group that `p` accepts; where none does,
/// a new group keyed by `key` is appended.
pub open spec fn file_under(
    gs: Seq<GroupModel>,
    p: spec_fn(GroupModel) -> bool,
    key: Seq<char>,
    i: usize,
) -> Seq<GroupModel> {
    let j = first_where(gs, p);
    if j >= 0 {
        gs.update(j, GroupModel { key: gs[j].key, members: gs[j].members.push(i) })
    } else {
        gs.push(GroupModel { key: key, members: seq![i] })
    }
}

/// Groups by exact key: position `i` goes under `keys[i]` where it has one.
pub open spec fn exact_groups(keys: Seq<Option<Seq<char>>>) -> Seq<GroupModel>
    decreases keys.len(),
{
    if keys.len() == 0 {
        seq![]
    } else {
        let prev = exact_groups(keys.drop_last());
        match keys.last() {
            Some(k) => file_under(prev, key_is(k), k, (keys.len() - 1) as usize),
            None => prev,
        }
    }
}

/// Groups genre tags: each tag joins the first group within the merge distance,
/// else opens a group keyed by the tag as written.
pub open spec fn genre_groups(tags: Seq<Option<Seq<char>>>) -> Seq<GroupModel>
    decreases tags.len(),
{
    if tags.len() == 0 {
        seq![]
    } else {
        let prev = genre_groups(tags.drop_last());
        match tags.last() {
            Some(t) => file_under(prev, genre_near(t), t, (tags.len() - 1) as usize),
            None => prev,
        }
    }
}

/// Every member of every group is below `n`.
pub open spec fn members_below(gs: Seq<GroupModel>, n: int) -> bool {
    forall|j: int, k: int|
        0 <= j < gs.len() && 0 <= k < gs[j].members.len() ==> #[trigger] gs[j].members[k] < n
}

pub proof fn lemma_first_where_range(gs: Seq<GroupModel>, p: spec_fn(GroupModel) -> bool)
    ensures
        -1 <= first_where(gs, p) < gs.len(),
        first_where(gs, p) >= 0 ==> p(gs[first_where(gs, p)]),
        forall|k: int| 0 <= k < gs.len() && first_where(gs, p) == -1 ==> !p(#[trigger] gs[k]),
        forall|k: int| 0 <= k < first_where(gs, p) ==> !p(#[trigger] gs[k]),
    decreases gs.len(),
{
    if gs.len() > 0 {
        lemma_first_where_range(gs.drop_last(), p);
        assert forall|k: int| 0 <= k < gs.len() - 1 implies gs.drop_last()[k] == gs[k] by {}
    }
}

/// The first match in a prefix is the first match in the whole sequence.
proof fn lemma_first_where_prefix(gs: Seq<GroupModel>, p: spec_fn(GroupModel) -> bool, n: int)
    requires
        0 <= n <= gs.len(),
        first_where(gs.take(n), p) >= 0,
    ensures
        first_where(gs, p) == first_where(gs.take(n), p),
    decreases gs.len() - n,
{
    if n < gs.len() {
        assert(gs.take(n + 1).drop_last() == gs.take(n));
        lemma_first_where_prefix(gs, p, n + 1);
    } else {
        assert(gs.take(n) == gs);
    }
}

proof fn lemma_first_where_step(gs: Seq<GroupModel>, p: spec_fn(GroupModel) -> bool, n: int)
    requires
        0 <= n < gs.len(),
        first_where(gs.take(n), p) == -1,
    ensures
        first_where(gs.take(n + 1), p) == if p(gs[n]) { n } else { -1 },
{
    assert(gs.take(n + 1).drop_last() == gs.take(n));
}

pub proof fn lemma_file_under_members(
    gs: Seq<GroupModel>,
    p: spec_fn(GroupModel) -> bool,
    key: Seq<char>,
    i: usize,
    n: int,
)
    requires
        members_below(gs, n),
        i < n,
    ensures
        members_below(file_under(gs, p, key, i), n),
{
    lemma_first_where_range(gs, p);
    let r = file_under(gs, p, key, i);
    assert forall|j: int, k: int|
        0 <= j < r.len() && 0 <= k < r[j].members.len() implies #[trigger] r[j].members[k] < n by {
        if first_where(gs, p) == j {
            if k < gs[j].members.len() {
                assert(gs[j].members[k] < n);
            }
        } else if j < gs.len() {
            assert(gs[j].members[k] < n);
        }
    }
}

pub proof fn lemma_exact_groups_members(keys: Seq<Option<Seq<char>>>)
    ensures
        members_below(exact_groups(keys), keys.len() as int),
    decreases keys.len(),
{
    if keys.len() > 0 {
        let prev = exact_groups(keys.drop_last());
        lemma_exact_groups_members(keys.drop_last());
        assert(members_below(prev, keys.len() as int));
        match keys.last() {
            Some(k) => lemma_file_under_members(prev, key_is(k), k, (keys.len() - 1) as usize, keys.len() as int),
            None => {},
        }
    }
}

pub proof fn lemma_genre_groups_members(tags: Seq<Option<Seq<char>>>)
    ensures
        members_below(genre_groups(tags), tags.len() as int),
    decreases tags.len(),
{
    if tags.len() > 0 {
        let prev = genre_groups(tags.drop_last());
        lemma_genre_groups_members(tags.drop_last());
        assert(members_below(prev, tags.len() as int));
        match tags.last() {
            Some(t) => lemma_file_under_members(prev, genre_near(t), t, (tags.len() - 1) as usize, tags.len() as int),
            None => {},
        }
    }
}

/// Position of the first group whose key is `key`, if any.
pub fn find_exact(groups: &Vec<Group>, key: &str) -> (r: Option<usize>)
    ensures
        match r {
            Some(j) => j < groups@.len() && first_where(groups_view(groups@), key_is(key@)) == j as int,
            None => first_where(groups_view(groups@), key_is(key@)) == -1,
        },
{
    let ghost gv = groups_view(groups@);
    let mut j: usize = 0;
    while j < groups.len()
        invariant
            gv == groups_view(groups@),
            j <= groups.len(),
            first_where(gv.take(j as int), key_is(key@)) == -1,
        decreases groups.len() - j,
    {
        proof { lemma_first_where_step(gv, key_is(key@), j as int); }
        if string_eq_str(&groups[j].key, key) {
            proof { lemma_first_where_prefix(gv, key_is(key@), j + 1); }
            return Some(j);
        }
        j = j + 1;
    }
    assert(gv.take(j as int) == gv);
    None
}

/// Position of the first group whose normalized key lies within the merge
/// distance of the normalized tag, if any.
pub fn find_genre(groups: &Vec<Group>, tag: &str) -> (r: Option<usize>)
    ensures
        match r {
            Some(j) => j < groups@.len() && first_where(groups_view(groups@), genre_near(tag@)) == j as int,
            None => first_where(groups_view(groups@), genre_near(tag@)) == -1,
        },
{
    let ghost gv = groups_view(groups@);
    let wanted = normalize_genre(tag);
    let mut j: usize = 0;
    while j < groups.len()
        invariant
            gv == groups_view(groups@),
            wanted@ == normalized(tag@),
            j <= groups.len(),
            first_where(gv.take(j as int), genre_near(tag@)) == -1,
        decreases groups.len() - j,
    {
        proof { lemma_first_where_step(gv, genre_near(tag@), j as int); }
        let existing = normalize_genre(groups[j].key.as_str());
        if edit_distance(wanted.as_str(), existing.as_str()) <= GENRE_MERGE_DISTANCE {
            proof { lemma_first_where_prefix(gv, genre_near(tag@), j + 1); }
            return Some(j);
        }
        j = j + 1;
    }
    assert(gv.take(j as int) == gv);
    None
}

/// Adds position `i` to the group that `j` names, or to a new group keyed by `key`.
fn file_at(groups: &mut Vec<Group>, j: Option<usize>, key: &String, i: usize)
    requires
        j matches Some(k) ==> k < old(groups)@.len(),
    ensures
        groups_view(final(groups)@) == match j {
            Some(k) => groups_view(old(groups)@).update(
                k as int,
                GroupModel {
                    key: old(groups)@[k as int].key@,
                    members: old(groups)@[k as int].members@.push(i),
                },
            ),
            None => groups_view(old(groups)@).push(GroupModel { key: key@, members: seq![i] }),
        },
{
    match j {
        Some(k) => {
            groups[k].members.push(i);
            assert(groups_view(groups@) =~= groups_view(old(groups)@).update(
                k as int,
                GroupModel {
                    key: old(groups)@[k as int].key@,
                    members: old(groups)@[k as int].members@.push(i),
                },
            ));
        },
        None => {
            let mut members = Vec::new();
            members.push(i);
            groups.push(Group { key: key.clone(), members });
            assert(groups_view(groups@) =~= groups_view(old(groups)@).push(
                GroupModel { key: key@, members: seq![i] },
            ));
        },
    }
}

/// Files position `i` under the group whose key is exactly `key`.
pub fn file_exact(groups: &mut Vec<Group>, key: &String, i: usize)
    ensures
        groups_view(final(groups)@) == file_under(groups_view(old(groups)@), key_is(key@), key@, i),
{
    let j = find_exact(groups, key.as_str());
    proof { lemma_first_where_range(groups_view(groups@), key_is(key@)); }
    file_at(groups, j, key, i);
}

/// Files position `i` under the first genre group near `tag`, or under a new
/// group keyed by `tag` itself.
pub fn file_genre(groups: &mut Vec<Group>, tag: &String, i: usize)
    ensures
        groups_view(final(groups)@) == file_under(groups_view(old(groups)@), genre_near(tag@), tag@, i),
{
    let j = find_genre(groups, tag.as_str());
    proof { lemma_first_where_range(groups_view(groups@), genre_near(tag@)); }
    file_at(groups, j, tag, i);
}

/// A second genre tag within the merge distance of the first, after
/// normalization, joins the first tag's group; one farther away opens a group
/// of its own.
pub proof fn law_genre_merge(a: Seq<char>, b: Seq<char>)
    ensures
        edit_distance_of(normalized(b), normalized(a)) <= GENRE_MERGE_DISTANCE ==> genre_groups(
            seq![Some(a), Some(b)],
        ) == seq![GroupModel { key: a, members: seq![0usize, 1usize] }],
        edit_distance_of(normalized(b), normalized(a)) > GENRE_MERGE_DISTANCE ==> genre_groups(
            seq![Some(a), Some(b)],
        ) == seq![GroupModel { key: a, members: seq![0usize] }, GroupModel { key: b, members: seq![1usize] }],
{
    let tags = seq![Some(a), Some(b)];
    let one = seq![Some(a)];
    assert(tags.drop_last() =~= one);
    assert(one.drop_last() =~= Seq::<Option<Seq<char>>>::empty());
    let g1 = genre_groups(one);
    let single = seq![GroupModel { key: a, members: seq![0usize] }];
    let none = Seq::<Option<Seq<char>>>::empty();
    assert(genre_groups(none) == Seq::<GroupModel>::empty());
    assert(one.last() == Some(a));
    assert(g1 == file_under(genre_groups(none), genre_near(a), a, 0usize));
    assert(first_where(Seq::<GroupModel>::empty(), genre_near(a)) == -1);
    assert(g1 =~= single);
    assert(tags.last() == Some(b));
    assert(genre_groups(tags) == file_under(g1, genre_near(b), b, 1usize));
    assert(single.drop_last() =~= Seq::<GroupModel>::empty());
    assert(first_where(single.drop_last(), genre_near(b)) == -1);
    if edit_distance_of(normalized(b), normalized(a)) <= GENRE_MERGE_DISTANCE {
        assert(first_where(single, genre_near(b)) == 0);
        assert(single[0].members.push(1usize) =~= seq![0usize, 1usize]);
        assert(genre_groups(tags) =~= seq![GroupModel { key: a, members: seq![0usize, 1usize] }]);
    } else {
        assert(first_where(single, genre_near(b)) == -1);
        assert(genre_groups(tags) =~= seq![
            GroupModel { key: a, members: seq![0usize] },
            GroupModel { key: b, members: seq![1usize] },
        ]);
    }
}

} // verus!
