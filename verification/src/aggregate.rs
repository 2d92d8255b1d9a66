//! Error aggregation for the dashboard: grouping a namespace's errors by
//! message, line or tag, ranking the groups by how often they occur, and the
//! smaller tallies behind the charts.
use vstd::prelude::*;
use chrono::TimeZone;
use crate::errors::{QueryError, ServerError};
use crate::text::{signed_decimal, signed_decimal_chars, str_chars, string_from_chars, trim, trim_chars};

verus! {

/// A tag attached to an error, without its id.
#[derive(Debug, Clone)]
pub struct TagNoId {
    pub tag_key: String,
    pub tag_value: String,
    pub tag_color: String,
}

impl View for TagNoId {
    type V = (Seq<char>, Seq<char>, Seq<char>);

    open spec fn view(&self) -> (Seq<char>, Seq<char>, Seq<char>) {
        (self.tag_key@, self.tag_value@, self.tag_color@)
    }
}

impl TagNoId {
    /// A field-by-field copy.
    pub fn duplicate(&self) -> (r: TagNoId)
        ensures
            r@ == self@,
    {
        TagNoId {
            tag_key: self.tag_key.clone(),
            tag_value: self.tag_value.clone(),
            tag_color: self.tag_color.clone(),
        }
    }

    /// Whether two tags agree on key, value and colour.
    pub fn same_as(&self, other: &TagNoId) -> (r: bool)
        ensures
            r == (self@ == other@),
    {
        self.tag_key == other.tag_key && self.tag_value == other.tag_value
            && self.tag_color == other.tag_color
    }
}

/// The sequence of the distinct elements of `s`, each where it first occurs.
pub open spec fn first_seen<A>(s: Seq<A>) -> Seq<A>
    decreases s.len(),
{
    if s.len() == 0 {
        Seq::empty()
    } else {
        let f = first_seen(s.drop_last());
        if f.contains(s.last()) {
            f
        } else {
            f.push(s.last())
        }
    }
}

/// `first_seen` has no repeated element and holds exactly the elements of `s`.
pub proof fn lemma_first_seen<A>(s: Seq<A>)
    ensures
        first_seen(s).no_duplicates(),
        forall|x: A| #[trigger] first_seen(s).contains(x) <==> s.contains(x),
    decreases s.len(),
{
    if s.len() > 0 {
        lemma_first_seen(s.drop_last());
        let f = first_seen(s.drop_last());
        let d = s.drop_last();
        assert forall|x: A| #[trigger] first_seen(s).contains(x) <==> s.contains(x) by {
            // s.contains(x) <==> d.contains(x) || x == s.last()
            if s.contains(x) {
                let i = choose|i: int| 0 <= i < s.len() && s[i] == x;
                if i < s.len() - 1 {
                    assert(d[i] == x);
                    assert(d.contains(x));
                }
            }
            if d.contains(x) {
                let i = choose|i: int| 0 <= i < d.len() && d[i] == x;
                assert(s[i] == x);
            }
            assert(s[s.len() - 1] == s.last());
            // first_seen(s).contains(x) <==> f.contains(x) || x == s.last()
            if f.contains(s.last()) {
                assert(first_seen(s) == f);
            } else {
                let g = f.push(s.last());
                assert(first_seen(s) == g);
                assert(g[f.len() as int] == s.last());
                if g.contains(x) && x != s.last() {
                    let i = choose|i: int| 0 <= i < g.len() && g[i] == x;
                    assert(f[i] == x);
                }
                if f.contains(x) {
                    let i = choose|i: int| 0 <= i < f.len() && f[i] == x;
                    assert(g[i] == x);
                }
            }
        }
    }
}

/// Appending an element: `first_seen` grows by it exactly when it is new.
pub proof fn lemma_first_seen_push<A>(s: Seq<A>, x: A)
    ensures
        first_seen(s.push(x)) == if first_seen(s).contains(x) {
            first_seen(s)
        } else {
            first_seen(s).push(x)
        },
{
    assert(s.push(x).drop_last() =~= s);
}

/// Whether element `a` of `keys` is ranked before element `b`: a larger key
/// first, and among equal keys the earlier position first.
pub open spec fn ranks_before(keys: Seq<i128>, a: int, b: int) -> bool {
    keys[a] > keys[b] || (keys[a] == keys[b] && a < b)
}

/// `order` lists every position of `keys` once, largest key first, equal
/// keys in their original order (a stable sort, largest first).
pub open spec fn is_stable_desc_order(keys: Seq<i128>, order: Seq<usize>) -> bool {
    &&& order.len() == keys.len()
    &&& forall|k: int| 0 <= k < order.len() ==> #[trigger] order[k] < keys.len()
    &&& forall|k1: int, k2: int|
        0 <= k1 < k2 < order.len() ==> ranks_before(keys, #[trigger] order[k1] as int, #[trigger] order[k2] as int)
}

/// The positions of `keys` in stable descending order of their keys.
pub fn stable_desc_order(keys: &Vec<i128>) -> (order: Vec<usize>)
    ensures
        is_stable_desc_order(keys@, order@),
{
    let mut order: Vec<usize> = Vec::new();
    let n = keys.len();
    let mut i: usize = 0;
    while i < n
        invariant
            n == keys@.len(),
            i <= n,
            order@.len() == i,
            forall|k: int| 0 <= k < order@.len() ==> #[trigger] order@[k] < i,
            forall|k1: int, k2: int|
                0 <= k1 < k2 < order@.len() ==> ranks_before(keys@, #[trigger] order@[k1] as int, #[trigger] order@[k2] as int),
        decreases n - i,
    {
        let key = keys[i];
        let mut pos: usize = 0;
        while pos < order.len() && keys[order[pos]] >= key
            invariant
                n == keys@.len(),
                i < n,
                order@.len() == i,
                pos <= order@.len(),
                forall|k: int| 0 <= k < order@.len() ==> #[trigger] order@[k] < i,
                forall|k: int| 0 <= k < pos ==> keys@[#[trigger] order@[k] as int] >= key,
            decreases order@.len() - pos,
        {
            pos = pos + 1;
        }
        proof {
            if pos < order@.len() {
                assert(keys@[order@[pos as int] as int] < key);
                assert forall|k: int| pos <= k < order@.len() implies keys@[#[trigger] order@[k] as int] < key by {
                    if k > pos {
                        assert(ranks_before(keys@, order@[pos as int] as int, order@[k] as int));
                    }
                }
            }
        }
        let ghost old_order = order@;
        order.insert(pos, i);
        proof {
            assert(order@ == old_order.insert(pos as int, i));
            assert forall|k: int| 0 <= k < order@.len() implies #[trigger] order@[k] < i + 1 by {
                if k < pos {
                    assert(order@[k] == old_order[k]);
                } else if k > pos {
                    assert(order@[k] == old_order[k - 1]);
                }
            }
            assert forall|k1: int, k2: int|
                0 <= k1 < k2 < order@.len() implies ranks_before(keys@, #[trigger] order@[k1] as int, #[trigger] order@[k2] as int) by {
                if k2 < pos {
                    assert(order@[k1] == old_order[k1] && order@[k2] == old_order[k2]);
                } else if k2 == pos {
                    assert(order@[k1] == old_order[k1]);
                    assert(keys@[old_order[k1] as int] >= key);
                } else if k1 < pos {
                    assert(order@[k1] == old_order[k1] && order@[k2] == old_order[k2 - 1]);
                    assert(ranks_before(keys@, old_order[k1] as int, old_order[k2 - 1] as int));
                } else if k1 == pos {
                    assert(order@[k2] == old_order[k2 - 1]);
                    assert(keys@[old_order[k2 - 1] as int] < key);
                } else {
                    assert(order@[k1] == old_order[k1 - 1] && order@[k2] == old_order[k2 - 1]);
                    assert(ranks_before(keys@, old_order[k1 - 1] as int, old_order[k2 - 1] as int));
                }
            }
        }
        i = i + 1;
    }
    order
}

/// The positions in a stable descending order, as integers.
pub open spec fn order_ints(order: Seq<usize>) -> Seq<int> {
    order.map_values(|x: usize| x as int)
}

/// A stable descending order lists every position of `keys`.
proof fn lemma_order_covers(keys: Seq<i128>, order: Seq<usize>, v: int)
    requires
        is_stable_desc_order(keys, order),
        0 <= v < keys.len(),
    ensures
        exists|j: int| 0 <= j < order.len() && order[j] as int == v,
{
    let n = keys.len() as int;
    let ints = order_ints(order);
    assert forall|i: int, j: int| 0 <= i < ints.len() && 0 <= j < ints.len() && i != j implies ints[i] != ints[j] by {
        if i < j {
            assert(ranks_before(keys, order[i] as int, order[j] as int));
        } else {
            assert(ranks_before(keys, order[j] as int, order[i] as int));
        }
    }
    assert(ints.no_duplicates());
    ints.unique_seq_to_set();
    vstd::set_lib::lemma_int_range(0, n);
    assert(ints.to_set().subset_of(vstd::set_lib::set_int_range(0, n))) by {
        assert forall|x: int| ints.to_set().contains(x) implies vstd::set_lib::set_int_range(0, n).contains(x) by {
            let j = choose|j: int| 0 <= j < ints.len() && ints[j] == x;
            assert(order[j] < keys.len());
        }
    }
    vstd::set_lib::lemma_subset_equality(ints.to_set(), vstd::set_lib::set_int_range(0, n));
    assert(vstd::set_lib::set_int_range(0, n).contains(v));
    assert(ints.to_set().contains(v));
    let j = choose|j: int| 0 <= j < ints.len() && ints[j] == v;
    assert(order[j] as int == v);
}

/// There is only one stable descending order of a list of keys: the ranking
/// that the sort gives is fully determined by the keys.
pub proof fn lemma_stable_desc_order_unique(keys: Seq<i128>, o1: Seq<usize>, o2: Seq<usize>)
    requires
        is_stable_desc_order(keys, o1),
        is_stable_desc_order(keys, o2),
    ensures
        o1 == o2,
{
    if exists|k: int| 0 <= k < o1.len() && o1[k] != o2[k] {
        let k0 = choose|k: int| 0 <= k < o1.len() && o1[k] != o2[k];
        let k = first_difference(o1, o2, k0);
        let a = o1[k] as int;
        let b = o2[k] as int;
        lemma_order_covers(keys, o2, a);
        let j = choose|j: int| 0 <= j < o2.len() && o2[j] as int == a;
        lemma_order_covers(keys, o1, b);
        let i = choose|i: int| 0 <= i < o1.len() && o1[i] as int == b;
        if j < k {
            assert(o1[j] == o2[j]);
            assert(ranks_before(keys, o1[j] as int, o1[k] as int));
        }
        if i < k {
            assert(o1[i] == o2[i]);
            assert(ranks_before(keys, o2[i] as int, o2[k] as int));
        }
        assert(j > k && i > k);
        assert(ranks_before(keys, o2[k] as int, o2[j] as int));
        assert(ranks_before(keys, o1[k] as int, o1[i] as int));
        assert(false);
    }
    assert(o1 =~= o2);
}

/// The first position, at or before `k`, where two sequences of the same
/// length differ.
proof fn first_difference(o1: Seq<usize>, o2: Seq<usize>, k: int) -> (f: int)
    requires
        0 <= k < o1.len(),
        o1.len() == o2.len(),
        o1[k] != o2[k],
    ensures
        0 <= f <= k,
        o1[f] != o2[f],
        forall|m: int| 0 <= m < f ==> o1[m] == o2[m],
    decreases k,
{
    if exists|m: int| 0 <= m < k && o1[m] != o2[m] {
        let m = choose|m: int| 0 <= m < k && o1[m] != o2[m];
        first_difference(o1, o2, m)
    } else {
        k
    }
}

/// One step of `first_seen`: add `x` unless it is already there.
pub open spec fn absorb_one<A>(f: Seq<A>, x: A) -> Seq<A> {
    if f.contains(x) {
        f
    } else {
        f.push(x)
    }
}

/// `absorb_one` applied to each element of `b` in turn.
pub open spec fn absorb<A>(f: Seq<A>, b: Seq<A>) -> Seq<A>
    decreases b.len(),
{
    if b.len() == 0 {
        f
    } else {
        absorb_one(absorb(f, b.drop_last()), b.last())
    }
}

/// The first occurrences of `a + b` are those of `a` followed by the new ones of `b`.
pub proof fn lemma_first_seen_concat<A>(a: Seq<A>, b: Seq<A>)
    ensures
        first_seen(a + b) == absorb(first_seen(a), b),
    decreases b.len(),
{
    if b.len() == 0 {
        assert(a + b =~= a);
    } else {
        lemma_first_seen_concat(a, b.drop_last());
        assert((a + b).drop_last() =~= a + b.drop_last());
        assert((a + b).last() == b.last());
    }
}

/// Adds `x` to `f` unless it is there already.
pub fn absorb_string(f: &mut Vec<String>, x: &String)
    ensures
        strings_view(final(f)@) == absorb_one(strings_view(old(f)@), x@),
{
    let ghost fv = strings_view(f@);
    let mut j: usize = 0;
    while j < f.len()
        invariant
            fv == strings_view(f@),
            j <= f@.len(),
            forall|k: int| 0 <= k < j ==> f@[k]@ != x@,
        decreases f@.len() - j,
    {
        if f[j] == *x {
            assert(fv[j as int] == x@);
            assert(fv.contains(x@));
            return;
        }
        j = j + 1;
    }
    assert(!fv.contains(x@)) by {
        if fv.contains(x@) {
            let k = choose|k: int| 0 <= k < fv.len() && fv[k] == x@;
            assert(f@[k]@ == x@);
        }
    }
    f.push(x.clone());
    assert(strings_view(f@) =~= fv.push(x@));
}

/// Adds `t` to `f` unless an equal tag is there already.
pub fn absorb_tag(f: &mut Vec<TagNoId>, t: &TagNoId)
    ensures
        tags_view(final(f)@) == absorb_one(tags_view(old(f)@), t@),
{
    let ghost fv = tags_view(f@);
    let mut j: usize = 0;
    while j < f.len()
        invariant
            fv == tags_view(f@),
            j <= f@.len(),
            forall|k: int| 0 <= k < j ==> f@[k]@ != t@,
        decreases f@.len() - j,
    {
        if f[j].same_as(t) {
            assert(fv[j as int] == t@);
            assert(fv.contains(t@));
            return;
        }
        j = j + 1;
    }
    assert(!fv.contains(t@)) by {
        if fv.contains(t@) {
            let k = choose|k: int| 0 <= k < fv.len() && fv[k] == t@;
            assert(f@[k]@ == t@);
        }
    }
    f.push(t.duplicate());
    assert(tags_view(f@) =~= fv.push(t@));
}

/// Adds each tag of `ts` to `f` in turn, skipping those already there.
pub fn absorb_tags(f: &mut Vec<TagNoId>, ts: &Vec<TagNoId>)
    ensures
        tags_view(final(f)@) == absorb(tags_view(old(f)@), tags_view(ts@)),
{
    let ghost f0 = tags_view(f@);
    let mut q: usize = 0;
    while q < ts.len()
        invariant
            q <= ts@.len(),
            tags_view(f@) == absorb(f0, tags_view(ts@).take(q as int)),
        decreases ts@.len() - q,
    {
        absorb_tag(f, &ts[q]);
        proof {
            let b = tags_view(ts@).take(q + 1);
            assert(b.drop_last() =~= tags_view(ts@).take(q as int));
            assert(b.last() == ts@[q as int]@);
        }
        q = q + 1;
    }
    assert(tags_view(ts@).take(ts@.len() as int) =~= tags_view(ts@));
}

pub open spec fn strings_view(v: Seq<String>) -> Seq<Seq<char>> {
    v.map_values(|s: String| s@)
}

pub open spec fn tags_view(v: Seq<TagNoId>) -> Seq<(Seq<char>, Seq<char>, Seq<char>)> {
    v.map_values(|t: TagNoId| t@)
}

/// An error of a namespace together with its tags, as the dashboard lists it.
#[derive(Debug, Clone)]
pub struct IndividualError {
    pub id: u128,
    pub user_affected: String,
    pub message: String,
    pub line: i32,
    pub path: String,
    pub stack_trace: String,
    pub namespace_id: u128,
    pub resolved: bool,
    pub created_at: i64,
    pub updated_at: i64,
    pub tags: Option<Vec<TagNoId>>,
}

/// `a` holds what `b` holds: every field, tags compared by their view and by
/// whether there are any.
pub open spec fn same_error(a: IndividualError, b: IndividualError) -> bool {
    &&& a@ == b@
    &&& a.id == b.id
    &&& a.path@ == b.path@
    &&& a.stack_trace@ == b.stack_trace@
    &&& a.namespace_id == b.namespace_id
    &&& a.resolved == b.resolved
    &&& a.updated_at == b.updated_at
    &&& (a.tags is Some <==> b.tags is Some)
}

/// What grouping reads of an error; an error without tags has none.
pub struct SampleView {
    pub message: Seq<char>,
    pub line: i32,
    pub user: Seq<char>,
    pub tags: Seq<(Seq<char>, Seq<char>, Seq<char>)>,
    pub created_at: i64,
}

impl View for IndividualError {
    type V = SampleView;

    open spec fn view(&self) -> SampleView {
        SampleView {
            message: self.message@,
            line: self.line,
            user: self.user_affected@,
            tags: match self.tags {
                Some(v) => tags_view(v@),
                None => Seq::empty(),
            },
            created_at: self.created_at,
        }
    }
}

pub open spec fn samples_view(v: Seq<IndividualError>) -> Seq<SampleView> {
    v.map_values(|e: IndividualError| e@)
}

/// The value errors are grouped by.
#[derive(Debug, Clone)]
pub enum GroupKey {
    Message(String),
    Line(i32),
}

pub enum KeyView {
    Message(Seq<char>),
    Line(i32),
}

impl View for GroupKey {
    type V = KeyView;

    open spec fn view(&self) -> KeyView {
        match self {
            GroupKey::Message(m) => KeyView::Message(m@),
            GroupKey::Line(l) => KeyView::Line(*l),
        }
    }
}

impl GroupKey {
    pub fn same_as(&self, other: &GroupKey) -> (r: bool)
        ensures
            r == (self@ == other@),
    {
        match (self, other) {
            (GroupKey::Message(a), GroupKey::Message(b)) => *a == *b,
            (GroupKey::Line(a), GroupKey::Line(b)) => *a == *b,
            _ => false,
        }
    }
}

/// Errors sharing a message (or a line): how many there are, how many
/// distinct users they affected, and every distinct tag they carry.
#[derive(Debug)]
pub struct AggregatedGroup {
    pub key: GroupKey,
    pub user_affected_count: usize,
    pub error_count: usize,
    pub aggregated_tags: Vec<TagNoId>,
}

pub struct GroupView {
    pub key: KeyView,
    pub user_affected_count: nat,
    pub error_count: nat,
    pub aggregated_tags: Seq<(Seq<char>, Seq<char>, Seq<char>)>,
}

impl View for AggregatedGroup {
    type V = GroupView;

    open spec fn view(&self) -> GroupView {
        GroupView {
            key: self.key@,
            user_affected_count: self.user_affected_count as nat,
            error_count: self.error_count as nat,
            aggregated_tags: tags_view(self.aggregated_tags@),
        }
    }
}

pub open spec fn groups_view(v: Seq<AggregatedGroup>) -> Seq<GroupView> {
    v.map_values(|g: AggregatedGroup| g@)
}

/// The key of an error: its line when grouping by line, else its message.
pub open spec fn key_of(by_line: bool, e: SampleView) -> KeyView {
    if by_line {
        KeyView::Line(e.line)
    } else {
        KeyView::Message(e.message)
    }
}

pub open spec fn keys_of(s: Seq<SampleView>, by_line: bool) -> Seq<KeyView>
    decreases s.len(),
{
    if s.len() == 0 {
        Seq::empty()
    } else {
        keys_of(s.drop_last(), by_line).push(key_of(by_line, s.last()))
    }
}

/// The errors of `s` whose key is `k`, in order.
pub open spec fn members(s: Seq<SampleView>, by_line: bool, k: KeyView) -> Seq<SampleView>
    decreases s.len(),
{
    if s.len() == 0 {
        Seq::empty()
    } else if key_of(by_line, s.last()) == k {
        members(s.drop_last(), by_line, k).push(s.last())
    } else {
        members(s.drop_last(), by_line, k)
    }
}

pub open spec fn users_of(s: Seq<SampleView>) -> Seq<Seq<char>>
    decreases s.len(),
{
    if s.len() == 0 {
        Seq::empty()
    } else {
        users_of(s.drop_last()).push(s.last().user)
    }
}

/// All tags of the errors of `s`, in order, repeats included.
pub open spec fn tags_of(s: Seq<SampleView>) -> Seq<(Seq<char>, Seq<char>, Seq<char>)>
    decreases s.len(),
{
    if s.len() == 0 {
        Seq::empty()
    } else {
        tags_of(s.drop_last()) + s.last().tags
    }
}

/// The group of key `k` among the errors `s`.
pub open spec fn group_of(s: Seq<SampleView>, by_line: bool, k: KeyView) -> GroupView {
    let m = members(s, by_line, k);
    GroupView {
        key: k,
        user_affected_count: first_seen(users_of(m)).len(),
        error_count: m.len(),
        aggregated_tags: first_seen(tags_of(m)),
    }
}

/// One group per distinct key, in the order the keys first occur.
pub open spec fn spec_groups(s: Seq<SampleView>, by_line: bool) -> Seq<GroupView> {
    first_seen(keys_of(s, by_line)).map_values(|k: KeyView| group_of(s, by_line, k))
}

proof fn lemma_members_absent(s: Seq<SampleView>, by_line: bool, k: KeyView)
    requires
        !keys_of(s, by_line).contains(k),
    ensures
        members(s, by_line, k) == Seq::<SampleView>::empty(),
    decreases s.len(),
{
    if s.len() > 0 {
        let d = s.drop_last();
        lemma_members_len(s, by_line, k);
        assert(keys_of(s, by_line)[s.len() - 1] == key_of(by_line, s.last()));
        assert(!keys_of(d, by_line).contains(k)) by {
            if keys_of(d, by_line).contains(k) {
                let i = choose|i: int| 0 <= i < keys_of(d, by_line).len() && keys_of(d, by_line)[i] == k;
                assert(keys_of(s, by_line)[i] == k);
            }
        }
        lemma_members_absent(d, by_line, k);
    }
}

proof fn lemma_members_len(s: Seq<SampleView>, by_line: bool, k: KeyView)
    ensures
        members(s, by_line, k).len() <= s.len(),
        keys_of(s, by_line).len() == s.len(),
    decreases s.len(),
{
    if s.len() > 0 {
        lemma_members_len(s.drop_last(), by_line, k);
    }
}

fn key_for(e: &IndividualError, by_line: bool) -> (k: GroupKey)
    ensures
        k@ == key_of(by_line, e@),
{
    if by_line {
        GroupKey::Line(e.line)
    } else {
        GroupKey::Message(e.message.clone())
    }
}

fn find_group(groups: &Vec<AggregatedGroup>, key: &GroupKey) -> (r: Option<usize>)
    ensures
        match r {
            Some(j) => j < groups@.len() && groups@[j as int].key@ == key@,
            None => forall|j: int| 0 <= j < groups@.len() ==> #[trigger] groups@[j].key@ != key@,
        },
{
    let mut j: usize = 0;
    while j < groups.len()
        invariant
            j <= groups@.len(),
            forall|jj: int| 0 <= jj < j ==> #[trigger] groups@[jj].key@ != key@,
        decreases groups@.len() - j,
    {
        if groups[j].key.same_as(key) {
            return Some(j);
        }
        j = j + 1;
    }
    None
}

/// Counts `e` into its group: one more error, its user and its tags added.
fn add_to_group(g: &mut AggregatedGroup, users: &mut Vec<String>, e: &IndividualError)
    requires
        old(g).error_count < usize::MAX,
    ensures
        final(g).key@ == old(g).key@,
        final(g).error_count == old(g).error_count + 1,
        strings_view(final(users)@) == absorb_one(strings_view(old(users)@), e@.user),
        final(g).user_affected_count == final(users)@.len(),
        tags_view(final(g).aggregated_tags@) == absorb(tags_view(old(g).aggregated_tags@), e@.tags),
{
    g.error_count = g.error_count + 1;
    absorb_string(users, &e.user_affected);
    g.user_affected_count = users.len();
    match &e.tags {
        Some(ts) => {
            absorb_tags(&mut g.aggregated_tags, ts);
        },
        None => {
            assert(tags_view(g.aggregated_tags@) == absorb(tags_view(g.aggregated_tags@), e@.tags));
        },
    }
}

/// Groups the errors by message (or by line when `by_line`): one group per
/// distinct key, in the order the keys first occur.
pub fn group_errors(errors: &Vec<IndividualError>, by_line: bool) -> (r: Vec<AggregatedGroup>)
    ensures
        groups_view(r@) == spec_groups(samples_view(errors@), by_line),
{
    let ghost ev = samples_view(errors@);
    let mut groups: Vec<AggregatedGroup> = Vec::new();
    let mut users: Vec<Vec<String>> = Vec::new();
    let mut i: usize = 0;
    while i < errors.len()
        invariant
            ev == samples_view(errors@),
            i <= errors@.len(),
            groups@.len() == users@.len(),
            groups@.len() == first_seen(keys_of(ev.take(i as int), by_line)).len(),
            forall|j: int| 0 <= j < groups@.len() ==> #[trigger] groups@[j]@ == group_of(ev.take(i as int), by_line, first_seen(keys_of(ev.take(i as int), by_line))[j]),
            forall|j: int| 0 <= j < users@.len() ==> strings_view(#[trigger] users@[j]@) == first_seen(users_of(members(ev.take(i as int), by_line, first_seen(keys_of(ev.take(i as int), by_line))[j]))),
        decreases errors@.len() - i,
    {
        let ghost p = ev.take(i as int);
        let ghost p2 = ev.take(i + 1);
        let ghost e = ev[i as int];
        let ghost fs = first_seen(keys_of(p, by_line));
        let key = key_for(&errors[i], by_line);
        proof {
            assert(e == errors@[i as int]@);
            assert(p2.drop_last() =~= p);
            assert(p2.last() == e);
            assert(keys_of(p2, by_line) == keys_of(p, by_line).push(key@));
            lemma_first_seen_push(keys_of(p, by_line), key@);
            lemma_first_seen(keys_of(p, by_line));
            lemma_members_len(p, by_line, key@);
        }
        // find the group of this key, or open an empty one
        let found = find_group(&groups, &key);
        let ghost fs2 = first_seen(keys_of(p2, by_line));
        let j: usize = match found {
            Some(j) => {
                proof {
                    assert(groups@[j as int]@ == group_of(p, by_line, fs[j as int]));
                    assert(fs.contains(key@));
                    assert(fs2 == fs);
                }
                j
            },
            None => {
                proof {
                    assert(!fs.contains(key@)) by {
                        if fs.contains(key@) {
                            let jj = choose|jj: int| 0 <= jj < fs.len() && fs[jj] == key@;
                            assert(groups@[jj]@ == group_of(p, by_line, fs[jj]));
                        }
                    }
                    lemma_members_absent(p, by_line, key@);
                    assert(users_of(Seq::<SampleView>::empty()) =~= Seq::<Seq<char>>::empty());
                    assert(tags_of(Seq::<SampleView>::empty()) =~= Seq::empty());
                    assert(fs2 == fs.push(key@));
                }
                let n = groups.len();
                groups.push(AggregatedGroup {
                    key: key_for(&errors[i], by_line),
                    user_affected_count: 0,
                    error_count: 0,
                    aggregated_tags: Vec::new(),
                });
                users.push(Vec::new());
                proof {
                    assert(fs2[n as int] == key@);
                    assert(strings_view(users@[n as int]@) =~= first_seen(users_of(members(p, by_line, fs2[n as int]))));
                    assert(tags_view(groups@[n as int].aggregated_tags@) =~= first_seen(tags_of(members(p, by_line, fs2[n as int]))));
                    assert(groups@[n as int]@ == group_of(p, by_line, fs2[n as int]));
                    assert forall|jj: int| 0 <= jj < n implies #[trigger] groups@[jj]@ == group_of(p, by_line, fs2[jj]) by {
                        assert(fs2[jj] == fs[jj]);
                    }
                    assert forall|jj: int| 0 <= jj < n implies strings_view(#[trigger] users@[jj]@) == first_seen(users_of(members(p, by_line, fs2[jj]))) by {
                        assert(fs2[jj] == fs[jj]);
                    }
                }
                n
            },
        };
        proof {
            assert(groups@.len() == fs2.len());
            assert(forall|jj: int| 0 <= jj < groups@.len() ==> #[trigger] groups@[jj]@ == group_of(p, by_line, fs2[jj]));
            assert(forall|jj: int| 0 <= jj < users@.len() ==> strings_view(#[trigger] users@[jj]@) == first_seen(users_of(members(p, by_line, fs2[jj]))));
            assert(fs2[j as int] == key@);
            lemma_first_seen(keys_of(p2, by_line));
        }
        let ghost groups_before = groups@;
        let ghost users_before = users@;
        let mut g = groups.remove(j);
        let mut u = users.remove(j);
        proof {
            let m = members(p, by_line, key@);
            assert(g@ == group_of(p, by_line, key@));
            assert(g.error_count == m.len());
        }
        add_to_group(&mut g, &mut u, &errors[i]);
        groups.insert(j, g);
        users.insert(j, u);
        proof {
            let m = members(p, by_line, key@);
            assert(members(p2, by_line, key@) == m.push(e));
            assert(m.push(e).drop_last() =~= m);
            assert(m.push(e).last() == e);
            lemma_first_seen_push(users_of(m), e.user);
            assert(users_of(m.push(e)) == users_of(m).push(e.user));
            assert(tags_of(m.push(e)) == tags_of(m) + e.tags);
            lemma_first_seen_concat(tags_of(m), e.tags);
            assert forall|jj: int| 0 <= jj < groups@.len() implies #[trigger] groups@[jj]@ == group_of(p2, by_line, fs2[jj]) by {
                if jj != j {
                    assert(groups@[jj] == groups_before[jj]);
                    assert(fs2[jj] != key@);
                    assert(members(p2, by_line, fs2[jj]) == members(p, by_line, fs2[jj]));
                } else {
                    assert(groups@[jj]@.aggregated_tags == first_seen(tags_of(members(p2, by_line, fs2[jj]))));
                    assert(groups@[jj]@.user_affected_count == first_seen(users_of(members(p2, by_line, fs2[jj]))).len());
                }
            }
            assert forall|jj: int| 0 <= jj < users@.len() implies strings_view(#[trigger] users@[jj]@) == first_seen(users_of(members(p2, by_line, fs2[jj]))) by {
                if jj != j {
                    assert(users@[jj] == users_before[jj]);
                    assert(fs2[jj] != key@);
                    assert(members(p2, by_line, fs2[jj]) == members(p, by_line, fs2[jj]));
                }
            }
        }
        i = i + 1;
    }
    proof {
        assert(ev.take(errors@.len() as int) =~= ev);
        assert(groups_view(groups@) =~= spec_groups(ev, by_line));
    }
    groups
}

/// A tag as seen by grouping: key, value, colour.
pub open spec fn label(t: (Seq<char>, Seq<char>, Seq<char>)) -> Seq<char> {
    t.0 + seq![':'] + t.1
}

/// Each tag of `ts` paired with the user `u`.
pub open spec fn with_user(ts: Seq<(Seq<char>, Seq<char>, Seq<char>)>, u: Seq<char>) -> Seq<((Seq<char>, Seq<char>, Seq<char>), Seq<char>)>
    decreases ts.len(),
{
    if ts.len() == 0 {
        Seq::empty()
    } else {
        with_user(ts.drop_last(), u).push((ts.last(), u))
    }
}

/// Every tag occurrence of the errors `s`, in order, with the user the error affected.
pub open spec fn tag_items(s: Seq<SampleView>) -> Seq<((Seq<char>, Seq<char>, Seq<char>), Seq<char>)>
    decreases s.len(),
{
    if s.len() == 0 {
        Seq::empty()
    } else {
        tag_items(s.drop_last()) + with_user(s.last().tags, s.last().user)
    }
}

pub open spec fn item_tags(items: Seq<((Seq<char>, Seq<char>, Seq<char>), Seq<char>)>) -> Seq<(Seq<char>, Seq<char>, Seq<char>)>
    decreases items.len(),
{
    if items.len() == 0 {
        Seq::empty()
    } else {
        item_tags(items.drop_last()).push(items.last().0)
    }
}

pub open spec fn item_labels(items: Seq<((Seq<char>, Seq<char>, Seq<char>), Seq<char>)>) -> Seq<Seq<char>>
    decreases items.len(),
{
    if items.len() == 0 {
        Seq::empty()
    } else {
        item_labels(items.drop_last()).push(label(items.last().0))
    }
}

/// How many of `items` carry the tag `t`.
pub open spec fn occurrences(items: Seq<((Seq<char>, Seq<char>, Seq<char>), Seq<char>)>, t: (Seq<char>, Seq<char>, Seq<char>)) -> nat
    decreases items.len(),
{
    if items.len() == 0 {
        0
    } else {
        occurrences(items.drop_last(), t) + if items.last().0 == t { 1nat } else { 0nat }
    }
}

/// The users of the items whose tag has label `l`, in order.
pub open spec fn label_users(items: Seq<((Seq<char>, Seq<char>, Seq<char>), Seq<char>)>, l: Seq<char>) -> Seq<Seq<char>>
    decreases items.len(),
{
    if items.len() == 0 {
        Seq::empty()
    } else if label(items.last().0) == l {
        label_users(items.drop_last(), l).push(items.last().1)
    } else {
        label_users(items.drop_last(), l)
    }
}

/// Affected users of tag `t`: the distinct users met so far under the tag's
/// "key:value" label, counted at the last occurrence of `t`.
pub open spec fn tag_user_count(items: Seq<((Seq<char>, Seq<char>, Seq<char>), Seq<char>)>, t: (Seq<char>, Seq<char>, Seq<char>)) -> nat
    decreases items.len(),
{
    if items.len() == 0 {
        0
    } else if items.last().0 == t {
        first_seen(label_users(items, label(t))).len()
    } else {
        tag_user_count(items.drop_last(), t)
    }
}

/// Errors grouped under one tag: how often the tag occurs and how many
/// distinct users its label has seen.
#[derive(Debug)]
pub struct TagAggregate {
    pub tag: TagNoId,
    pub user_affected_count: usize,
    pub error_count: usize,
}

pub struct TagGroupView {
    pub tag: (Seq<char>, Seq<char>, Seq<char>),
    pub user_affected_count: nat,
    pub error_count: nat,
}

impl View for TagAggregate {
    type V = TagGroupView;

    open spec fn view(&self) -> TagGroupView {
        TagGroupView {
            tag: self.tag@,
            user_affected_count: self.user_affected_count as nat,
            error_count: self.error_count as nat,
        }
    }
}

pub open spec fn tag_groups_view(v: Seq<TagAggregate>) -> Seq<TagGroupView> {
    v.map_values(|g: TagAggregate| g@)
}

pub open spec fn tag_group_of(items: Seq<((Seq<char>, Seq<char>, Seq<char>), Seq<char>)>, t: (Seq<char>, Seq<char>, Seq<char>)) -> TagGroupView {
    TagGroupView { tag: t, user_affected_count: tag_user_count(items, t), error_count: occurrences(items, t) }
}

/// One group per distinct tag, in the order the tags first occur.
pub open spec fn spec_tag_groups(s: Seq<SampleView>) -> Seq<TagGroupView> {
    let items = tag_items(s);
    first_seen(item_tags(items)).map_values(|t: (Seq<char>, Seq<char>, Seq<char>)| tag_group_of(items, t))
}

proof fn lemma_tag_absent(items: Seq<((Seq<char>, Seq<char>, Seq<char>), Seq<char>)>, t: (Seq<char>, Seq<char>, Seq<char>))
    requires
        !item_tags(items).contains(t),
    ensures
        occurrences(items, t) == 0,
        tag_user_count(items, t) == 0,
    decreases items.len(),
{
    if items.len() > 0 {
        let d = items.drop_last();
        lemma_item_lens(items);
        assert(item_tags(items)[items.len() - 1] == items.last().0);
        assert(!item_tags(d).contains(t)) by {
            if item_tags(d).contains(t) {
                let i = choose|i: int| 0 <= i < item_tags(d).len() && item_tags(d)[i] == t;
                assert(item_tags(items)[i] == t);
            }
        }
        lemma_tag_absent(d, t);
    }
}

proof fn lemma_label_absent(items: Seq<((Seq<char>, Seq<char>, Seq<char>), Seq<char>)>, l: Seq<char>)
    requires
        !item_labels(items).contains(l),
    ensures
        label_users(items, l) == Seq::<Seq<char>>::empty(),
    decreases items.len(),
{
    if items.len() > 0 {
        let d = items.drop_last();
        lemma_item_lens(items);
        assert(item_labels(items)[items.len() - 1] == label(items.last().0));
        assert(!item_labels(d).contains(l)) by {
            if item_labels(d).contains(l) {
                let i = choose|i: int| 0 <= i < item_labels(d).len() && item_labels(d)[i] == l;
                assert(item_labels(items)[i] == l);
            }
        }
        lemma_label_absent(d, l);
    }
}

proof fn lemma_item_lens(items: Seq<((Seq<char>, Seq<char>, Seq<char>), Seq<char>)>)
    ensures
        item_tags(items).len() == items.len(),
        item_labels(items).len() == items.len(),
        forall|t: (Seq<char>, Seq<char>, Seq<char>)| #[trigger] occurrences(items, t) <= items.len(),
    decreases items.len(),
{
    if items.len() > 0 {
        lemma_item_lens(items.drop_last());
        assert forall|t: (Seq<char>, Seq<char>, Seq<char>)| #[trigger] occurrences(items, t) <= items.len() by {
            assert(occurrences(items.drop_last(), t) <= items.drop_last().len());
        }
    }
}

pub open spec fn items_view(v: Seq<(TagNoId, String)>) -> Seq<((Seq<char>, Seq<char>, Seq<char>), Seq<char>)> {
    v.map_values(|it: (TagNoId, String)| (it.0@, it.1@))
}

/// Every tag occurrence of `errors`, paired with the error's affected user.
fn collect_tag_items(errors: &Vec<IndividualError>) -> (r: Vec<(TagNoId, String)>)
    ensures
        items_view(r@) == tag_items(samples_view(errors@)),
{
    let ghost ev = samples_view(errors@);
    let mut items: Vec<(TagNoId, String)> = Vec::new();
    let mut i: usize = 0;
    while i < errors.len()
        invariant
            ev == samples_view(errors@),
            i <= errors@.len(),
            items_view(items@) == tag_items(ev.take(i as int)),
        decreases errors@.len() - i,
    {
        let e = &errors[i];
        let ghost base = items_view(items@);
        let ghost ts = e@.tags;
        match &e.tags {
            Some(tv) => {
                let mut q: usize = 0;
                while q < tv.len()
                    invariant
                        q <= tv@.len(),
                        ts == tags_view(tv@),
                        items_view(items@) == base + with_user(ts.take(q as int), e@.user),
                    decreases tv@.len() - q,
                {
                    let ghost before = items_view(items@);
                    items.push((tv[q].duplicate(), e.user_affected.clone()));
                    proof {
                        let w = ts.take(q + 1);
                        assert(w.drop_last() =~= ts.take(q as int));
                        assert(w.last() == tv@[q as int]@);
                        assert(items_view(items@) =~= before.push((tv@[q as int]@, e@.user)));
                        assert(base + with_user(w, e@.user) =~= (base + with_user(ts.take(q as int), e@.user)).push((w.last(), e@.user)));
                    }
                    q = q + 1;
                }
                proof { assert(ts.take(tv@.len() as int) =~= ts); }
            },
            None => {
                proof {
                    assert(with_user(ts, e@.user) =~= Seq::empty());
                    assert(base + with_user(ts, e@.user) =~= base);
                }
            },
        }
        proof {
            let p2 = ev.take(i + 1);
            assert(p2.drop_last() =~= ev.take(i as int));
            assert(p2.last() == e@);
        }
        i = i + 1;
    }
    proof { assert(ev.take(errors@.len() as int) =~= ev); }
    items
}

fn label_chars(t: &TagNoId) -> (r: Vec<char>)
    ensures
        r@ == label(t@),
{
    let mut r = crate::text::str_chars(t.tag_key.as_str());
    r.push(':');
    let v = crate::text::str_chars(t.tag_value.as_str());
    crate::text::push_all(&mut r, &v);
    r
}

fn find_chars(v: &Vec<Vec<char>>, l: &Vec<char>) -> (r: Option<usize>)
    ensures
        match r {
            Some(j) => j < v@.len() && v@[j as int]@ == l@,
            None => forall|j: int| 0 <= j < v@.len() ==> #[trigger] v@[j]@ != l@,
        },
{
    let mut j: usize = 0;
    while j < v.len()
        invariant
            j <= v@.len(),
            forall|jj: int| 0 <= jj < j ==> #[trigger] v@[jj]@ != l@,
        decreases v@.len() - j,
    {
        if crate::text::chars_eq(&v[j], l) {
            return Some(j);
        }
        j = j + 1;
    }
    None
}

fn find_tag_group(groups: &Vec<TagAggregate>, t: &TagNoId) -> (r: Option<usize>)
    ensures
        match r {
            Some(j) => j < groups@.len() && groups@[j as int].tag@ == t@,
            None => forall|j: int| 0 <= j < groups@.len() ==> #[trigger] groups@[j].tag@ != t@,
        },
{
    let mut j: usize = 0;
    while j < groups.len()
        invariant
            j <= groups@.len(),
            forall|jj: int| 0 <= jj < j ==> #[trigger] groups@[jj].tag@ != t@,
        decreases groups@.len() - j,
    {
        if groups[j].tag.same_as(t) {
            return Some(j);
        }
        j = j + 1;
    }
    None
}

pub open spec fn chars_view(v: Seq<Vec<char>>) -> Seq<Seq<char>> {
    v.map_values(|c: Vec<char>| c@)
}

/// Groups the tag occurrences of the errors by tag: one group per distinct
/// tag, in the order the tags first occur.
pub fn group_by_tags(errors: &Vec<IndividualError>) -> (r: Vec<TagAggregate>)
    ensures
        tag_groups_view(r@) == spec_tag_groups(samples_view(errors@)),
{
    let items = collect_tag_items(errors);
    let ghost iv = items_view(items@);
    let mut groups: Vec<TagAggregate> = Vec::new();
    let mut labels: Vec<Vec<char>> = Vec::new();
    let mut lusers: Vec<Vec<String>> = Vec::new();
    let mut i: usize = 0;
    while i < items.len()
        invariant
            iv == items_view(items@),
            i <= items@.len(),
            groups@.len() == first_seen(item_tags(iv.take(i as int))).len(),
            forall|j: int| 0 <= j < groups@.len() ==> #[trigger] groups@[j]@ == tag_group_of(iv.take(i as int), first_seen(item_tags(iv.take(i as int)))[j]),
            chars_view(labels@) == first_seen(item_labels(iv.take(i as int))),
            lusers@.len() == labels@.len(),
            forall|j: int| 0 <= j < lusers@.len() ==> strings_view(#[trigger] lusers@[j]@) == first_seen(label_users(iv.take(i as int), labels@[j]@)),
        decreases items@.len() - i,
    {
        let ghost p = iv.take(i as int);
        let ghost p2 = iv.take(i + 1);
        let t = &items[i].0;
        let u = &items[i].1;
        let ghost it = iv[i as int];
        proof {
            assert(it == (t@, u@));
            assert(p2.drop_last() =~= p);
            assert(p2.last() == it);
            lemma_item_lens(p);
            lemma_first_seen(item_tags(p));
            lemma_first_seen(item_labels(p));
            lemma_first_seen_push(item_tags(p), t@);
            lemma_first_seen_push(item_labels(p), label(t@));
        }
        // the users seen under this tag's label
        let l = label_chars(t);
        let ghost ls = first_seen(item_labels(p));
        let ghost ls2 = first_seen(item_labels(p2));
        let lj: usize = match find_chars(&labels, &l) {
            Some(lj) => {
                proof {
                    assert(ls[lj as int] == l@);
                    assert(ls.contains(l@));
                    assert(ls2 == ls);
                }
                lj
            },
            None => {
                proof {
                    assert(!ls.contains(l@)) by {
                        if ls.contains(l@) {
                            let jj = choose|jj: int| 0 <= jj < ls.len() && ls[jj] == l@;
                            assert(labels@[jj]@ == ls[jj]);
                        }
                    }
                    lemma_label_absent(p, l@);
                    assert(ls2 == ls.push(l@));
                }
                let n = labels.len();
                labels.push(l);
                lusers.push(Vec::new());
                proof {
                    assert(chars_view(labels@) =~= ls2);
                    assert(strings_view(lusers@[n as int]@) =~= first_seen(label_users(p, labels@[n as int]@)));
                }
                n
            },
        };
        let ghost lusers_before = lusers@;
        let mut us = lusers.remove(lj);
        absorb_string(&mut us, u);
        let count = us.len();
        lusers.insert(lj, us);
        proof {
            assert(labels@[lj as int]@ == label(t@));
            assert(label_users(p2, label(t@)) == label_users(p, label(t@)).push(u@));
            lemma_first_seen_push(label_users(p, label(t@)), u@);
            assert(chars_view(labels@) == ls2);
            assert forall|j: int| 0 <= j < lusers@.len() implies strings_view(#[trigger] lusers@[j]@) == first_seen(label_users(p2, labels@[j]@)) by {
                if j != lj {
                    assert(lusers@[j] == lusers_before[j]);
                    assert(labels@[j]@ == ls2[j]);
                    lemma_first_seen(item_labels(p2));
                    assert(ls2[j] != ls2[lj as int]);
                    assert(label_users(p2, labels@[j]@) == label_users(p, labels@[j]@));
                }
            }
            assert(count == first_seen(label_users(p2, label(t@))).len());
        }
        // the group of this tag
        let ghost fs = first_seen(item_tags(p));
        let ghost fs2 = first_seen(item_tags(p2));
        let gj: usize = match find_tag_group(&groups, t) {
            Some(gj) => {
                proof {
                    assert(groups@[gj as int]@ == tag_group_of(p, fs[gj as int]));
                    assert(fs.contains(t@));
                    assert(fs2 == fs);
                }
                gj
            },
            None => {
                proof {
                    assert(!fs.contains(t@)) by {
                        if fs.contains(t@) {
                            let jj = choose|jj: int| 0 <= jj < fs.len() && fs[jj] == t@;
                            assert(groups@[jj]@ == tag_group_of(p, fs[jj]));
                        }
                    }
                    lemma_tag_absent(p, t@);
                    assert(fs2 == fs.push(t@));
                }
                let n = groups.len();
                groups.push(TagAggregate { tag: t.duplicate(), user_affected_count: 0, error_count: 0 });
                proof {
                    assert(groups@[n as int]@ == tag_group_of(p, fs2[n as int]));
                    assert forall|jj: int| 0 <= jj < n implies #[trigger] groups@[jj]@ == tag_group_of(p, fs2[jj]) by {
                        assert(fs2[jj] == fs[jj]);
                    }
                }
                n
            },
        };
        proof {
            assert(groups@.len() == fs2.len());
            assert(fs2[gj as int] == t@);
            assert(groups@[gj as int]@ == tag_group_of(p, t@));
            assert(occurrences(p, t@) <= p.len());
            lemma_first_seen(item_tags(p2));
        }
        let ghost groups_before = groups@;
        let mut g = groups.remove(gj);
        g.error_count = g.error_count + 1;
        g.user_affected_count = count;
        groups.insert(gj, g);
        proof {
            assert forall|j: int| 0 <= j < groups@.len() implies #[trigger] groups@[j]@ == tag_group_of(p2, fs2[j]) by {
                if j != gj {
                    assert(groups@[j] == groups_before[j]);
                    assert(groups_before[j]@ == tag_group_of(p, fs2[j]));
                    assert(fs2[j] != fs2[gj as int]);
                    assert(occurrences(p2, fs2[j]) == occurrences(p, fs2[j]));
                    assert(tag_user_count(p2, fs2[j]) == tag_user_count(p, fs2[j]));
                }
            }
        }
        i = i + 1;
    }
    proof {
        assert(iv.take(items@.len() as int) =~= iv);
        assert(tag_groups_view(groups@) =~= spec_tag_groups(samples_view(errors@)));
    }
    groups
}

fn duplicate_tags(v: &Vec<TagNoId>) -> (r: Vec<TagNoId>)
    ensures
        tags_view(r@) == tags_view(v@),
{
    let mut r: Vec<TagNoId> = Vec::new();
    let mut q: usize = 0;
    while q < v.len()
        invariant
            q <= v@.len(),
            tags_view(r@) == tags_view(v@).take(q as int),
        decreases v@.len() - q,
    {
        let ghost before = tags_view(r@);
        let t = v[q].duplicate();
        r.push(t);
        proof {
            assert(tags_view(r@) =~= before.push(t@));
            assert(tags_view(r@) =~= tags_view(v@).take(q + 1));
        }
        q = q + 1;
    }
    proof { assert(tags_view(v@).take(v@.len() as int) =~= tags_view(v@)); }
    r
}

impl GroupKey {
    pub fn duplicate(&self) -> (r: GroupKey)
        ensures
            r@ == self@,
    {
        match self {
            GroupKey::Message(m) => GroupKey::Message(m.clone()),
            GroupKey::Line(l) => GroupKey::Line(*l),
        }
    }
}

impl AggregatedGroup {
    pub fn duplicate(&self) -> (r: AggregatedGroup)
        ensures
            r@ == self@,
    {
        AggregatedGroup {
            key: self.key.duplicate(),
            user_affected_count: self.user_affected_count,
            error_count: self.error_count,
            aggregated_tags: duplicate_tags(&self.aggregated_tags),
        }
    }
}

impl TagAggregate {
    pub fn duplicate(&self) -> (r: TagAggregate)
        ensures
            r@ == self@,
    {
        TagAggregate {
            tag: self.tag.duplicate(),
            user_affected_count: self.user_affected_count,
            error_count: self.error_count,
        }
    }
}

impl IndividualError {
    /// A copy with every field, tags included, equal to the original's.
    pub fn duplicate(&self) -> (r: IndividualError)
        ensures
            r@ == self@,
            r.id == self.id,
            r.path@ == self.path@,
            r.stack_trace@ == self.stack_trace@,
            r.namespace_id == self.namespace_id,
            r.resolved == self.resolved,
            r.updated_at == self.updated_at,
            r.tags is Some <==> self.tags is Some,
    {
        IndividualError {
            id: self.id,
            user_affected: self.user_affected.clone(),
            message: self.message.clone(),
            line: self.line,
            path: self.path.clone(),
            stack_trace: self.stack_trace.clone(),
            namespace_id: self.namespace_id,
            resolved: self.resolved,
            created_at: self.created_at,
            updated_at: self.updated_at,
            tags: match &self.tags {
                Some(v) => Some(duplicate_tags(v)),
                None => None,
            },
        }
    }
}

/// The elements of `s` in the order the positions in `order` give.
pub open spec fn ordered<A>(s: Seq<A>, order: Seq<usize>) -> Seq<A> {
    order.map_values(|i: usize| s[i as int])
}

/// The part of `s` that skipping `offset` elements and then taking at most
/// `limit` leaves.
pub open spec fn page<A>(s: Seq<A>, offset: int, limit: int) -> Seq<A> {
    let start = if offset < s.len() { offset } else { s.len() as int };
    let end = if start + limit < s.len() { start + limit } else { s.len() as int };
    s.subrange(start, end)
}

pub open spec fn group_counts(gs: Seq<GroupView>) -> Seq<i128> {
    gs.map_values(|g: GroupView| g.error_count as i128)
}

pub open spec fn tag_group_counts(gs: Seq<TagGroupView>) -> Seq<i128> {
    gs.map_values(|g: TagGroupView| g.error_count as i128)
}

pub open spec fn created_keys(s: Seq<SampleView>) -> Seq<i128> {
    s.map_values(|e: SampleView| e.created_at as i128)
}

/// Bounds of the page of `n` elements that skips `offset` and takes at most `limit`.
fn page_range(n: usize, offset: usize, limit: usize) -> (r: (usize, usize))
    ensures
        r.0 == (if offset < n { offset as int } else { n as int }),
        r.1 == (if r.0 + limit < n { r.0 + limit } else { n as int }),
{
    let start = if offset < n { offset } else { n };
    let end = if limit < n - start { start + limit } else { n };
    (start, end)
}

/// Ranks the groups, most errors first (equal counts keep their order), and
/// returns the page that skips `offset` groups and takes at most `limit`.
pub fn page_groups(groups: &Vec<AggregatedGroup>, offset: usize, limit: usize) -> (r: Vec<AggregatedGroup>)
    ensures
        exists|order: Seq<usize>|
            #[trigger] is_stable_desc_order(group_counts(groups_view(groups@)), order)
            && groups_view(r@) == page(ordered(groups_view(groups@), order), offset as int, limit as int),
{
    let ghost gv = groups_view(groups@);
    let mut keys: Vec<i128> = Vec::new();
    let mut k: usize = 0;
    while k < groups.len()
        invariant
            gv == groups_view(groups@),
            k <= groups@.len(),
            keys@ == group_counts(gv).take(k as int),
        decreases groups@.len() - k,
    {
        keys.push(groups[k].error_count as i128);
        proof { assert(keys@ =~= group_counts(gv).take(k + 1)); }
        k = k + 1;
    }
    proof { assert(keys@ =~= group_counts(gv)); }
    let order = stable_desc_order(&keys);
    let (start, end) = page_range(groups.len(), offset, limit);
    let ghost sorted = ordered(gv, order@);
    let mut r: Vec<AggregatedGroup> = Vec::new();
    let mut q: usize = start;
    while q < end
        invariant
            gv == groups_view(groups@),
            is_stable_desc_order(group_counts(gv), order@),
            sorted == ordered(gv, order@),
            start <= q <= end <= groups@.len(),
            groups_view(r@) == sorted.subrange(start as int, q as int),
        decreases end - q,
    {
        let ghost before = groups_view(r@);
        let g = groups[order[q]].duplicate();
        r.push(g);
        proof {
            assert(groups_view(r@) =~= before.push(g@));
            assert(sorted[q as int] == gv[order@[q as int] as int]);
            assert(groups_view(r@) =~= sorted.subrange(start as int, q + 1));
        }
        q = q + 1;
    }
    proof {
        assert(groups_view(r@) == page(sorted, offset as int, limit as int));
    }
    r
}

/// Ranks the tag groups, most occurrences first (equal counts keep their
/// order), and returns the page that skips `offset` and takes at most `limit`.
pub fn page_tag_groups(groups: &Vec<TagAggregate>, offset: usize, limit: usize) -> (r: Vec<TagAggregate>)
    ensures
        exists|order: Seq<usize>|
            #[trigger] is_stable_desc_order(tag_group_counts(tag_groups_view(groups@)), order)
            && tag_groups_view(r@) == page(ordered(tag_groups_view(groups@), order), offset as int, limit as int),
{
    let ghost gv = tag_groups_view(groups@);
    let mut keys: Vec<i128> = Vec::new();
    let mut k: usize = 0;
    while k < groups.len()
        invariant
            gv == tag_groups_view(groups@),
            k <= groups@.len(),
            keys@ == tag_group_counts(gv).take(k as int),
        decreases groups@.len() - k,
    {
        keys.push(groups[k].error_count as i128);
        proof { assert(keys@ =~= tag_group_counts(gv).take(k + 1)); }
        k = k + 1;
    }
    proof { assert(keys@ =~= tag_group_counts(gv)); }
    let order = stable_desc_order(&keys);
    let (start, end) = page_range(groups.len(), offset, limit);
    let ghost sorted = ordered(gv, order@);
    let mut r: Vec<TagAggregate> = Vec::new();
    let mut q: usize = start;
    while q < end
        invariant
            gv == tag_groups_view(groups@),
            is_stable_desc_order(tag_group_counts(gv), order@),
            sorted == ordered(gv, order@),
            start <= q <= end <= groups@.len(),
            tag_groups_view(r@) == sorted.subrange(start as int, q as int),
        decreases end - q,
    {
        let ghost before = tag_groups_view(r@);
        let g = groups[order[q]].duplicate();
        r.push(g);
        proof {
            assert(tag_groups_view(r@) =~= before.push(g@));
            assert(sorted[q as int] == gv[order@[q as int] as int]);
            assert(tag_groups_view(r@) =~= sorted.subrange(start as int, q + 1));
        }
        q = q + 1;
    }
    proof {
        assert(tag_groups_view(r@) == page(sorted, offset as int, limit as int));
    }
    r
}

/// The errors newest first; errors created at the same time keep their order.
pub fn newest_first(errors: &Vec<IndividualError>) -> (r: Vec<IndividualError>)
    ensures
        exists|order: Seq<usize>|
            #[trigger] is_stable_desc_order(created_keys(samples_view(errors@)), order)
            && samples_view(r@) == ordered(samples_view(errors@), order)
            && r@.len() == order.len()
            && forall|i: int| 0 <= i < r@.len() ==> same_error(#[trigger] r@[i], errors@[order[i] as int]),
{
    let ghost ev = samples_view(errors@);
    let mut keys: Vec<i128> = Vec::new();
    let mut k: usize = 0;
    while k < errors.len()
        invariant
            ev == samples_view(errors@),
            k <= errors@.len(),
            keys@ == created_keys(ev).take(k as int),
        decreases errors@.len() - k,
    {
        keys.push(errors[k].created_at as i128);
        proof { assert(keys@ =~= created_keys(ev).take(k + 1)); }
        k = k + 1;
    }
    proof { assert(keys@ =~= created_keys(ev)); }
    let order = stable_desc_order(&keys);
    let ghost sorted = ordered(ev, order@);
    let mut r: Vec<IndividualError> = Vec::new();
    let mut q: usize = 0;
    while q < order.len()
        invariant
            ev == samples_view(errors@),
            is_stable_desc_order(created_keys(ev), order@),
            sorted == ordered(ev, order@),
            q <= order@.len(),
            samples_view(r@) == sorted.take(q as int),
            r@.len() == q,
            forall|i: int| 0 <= i < q ==> same_error(#[trigger] r@[i], errors@[order@[i] as int]),
        decreases order@.len() - q,
    {
        let ghost before = samples_view(r@);
        let e = errors[order[q]].duplicate();
        r.push(e);
        proof {
            assert(samples_view(r@) =~= before.push(e@));
            assert(sorted[q as int] == ev[order@[q as int] as int]);
            assert(samples_view(r@) =~= sorted.take(q + 1));
        }
        q = q + 1;
    }
    proof { assert(sorted.take(order@.len() as int) =~= sorted); }
    r
}

/// What a listing of a namespace's errors is grouped by.
#[derive(Debug, Clone, Copy, PartialEq, Eq, Structural)]
pub enum GroupBy {
    Message,
    Line,
    Tags,
    /// A name that selects no grouping.
    Other,
}

pub open spec fn spec_group_by(name: Seq<char>) -> GroupBy {
    if name == "tags"@ {
        GroupBy::Tags
    } else if name == "message"@ {
        GroupBy::Message
    } else if name == "line"@ {
        GroupBy::Line
    } else {
        GroupBy::Other
    }
}

pub fn group_by_from(name: &str) -> (r: GroupBy)
    ensures
        r == spec_group_by(name@),
{
    if crate::text::str_eq(name, "tags") {
        GroupBy::Tags
    } else if crate::text::str_eq(name, "message") {
        GroupBy::Message
    } else if crate::text::str_eq(name, "line") {
        GroupBy::Line
    } else {
        GroupBy::Other
    }
}

/// A page of grouped errors, by the grouping that was asked for.
#[derive(Debug)]
pub enum AggregatedResult {
    ByTags(Vec<TagAggregate>),
    ByMessage(Vec<AggregatedGroup>),
    ByLine(Vec<AggregatedGroup>),
}

/// `r` is the page of `groups` ranked most errors first.
pub open spec fn is_ranked_page(groups: Seq<GroupView>, offset: int, limit: int, r: Seq<GroupView>) -> bool {
    exists|order: Seq<usize>|
        #[trigger] is_stable_desc_order(group_counts(groups), order)
        && r == page(ordered(groups, order), offset, limit)
}

pub open spec fn is_ranked_tag_page(groups: Seq<TagGroupView>, offset: int, limit: int, r: Seq<TagGroupView>) -> bool {
    exists|order: Seq<usize>|
        #[trigger] is_stable_desc_order(tag_group_counts(groups), order)
        && r == page(ordered(groups, order), offset, limit)
}

/// What a page of the errors `sorted` (newest first) grouped by `by` is.
pub open spec fn is_grouped_page(sorted: Seq<SampleView>, by: GroupBy, offset: int, limit: int, r: AggregatedResult) -> bool {
    match by {
        GroupBy::Tags => r matches AggregatedResult::ByTags(v)
            && is_ranked_tag_page(spec_tag_groups(sorted), offset, limit, tag_groups_view(v@)),
        GroupBy::Message => r matches AggregatedResult::ByMessage(v)
            && is_ranked_page(spec_groups(sorted, false), offset, limit, groups_view(v@)),
        GroupBy::Line => r matches AggregatedResult::ByLine(v)
            && is_ranked_page(spec_groups(sorted, true), offset, limit, groups_view(v@)),
        GroupBy::Other => r matches AggregatedResult::ByMessage(v) && v@.len() == 0,
    }
}

/// A page of a namespace's errors grouped by message, line or tag. The
/// errors are taken newest first, grouped, the groups ranked most errors
/// first, and `offset` groups skipped before at most `limit` are returned.
/// A grouping name other than "tags", "message" or "line" gives an empty
/// page of message groups.
pub fn get_errors_by_namespace_with_pagination(
    errors: &Vec<IndividualError>,
    group_by: &str,
    offset: usize,
    limit: usize,
) -> (r: AggregatedResult)
    ensures
        exists|order: Seq<usize>|
            #[trigger] is_stable_desc_order(created_keys(samples_view(errors@)), order)
            && is_grouped_page(ordered(samples_view(errors@), order), spec_group_by(group_by@), offset as int, limit as int, r),
{
    let sorted = newest_first(errors);
    let by = group_by_from(group_by);
    let r = match by {
        GroupBy::Tags => {
            let groups = group_by_tags(&sorted);
            AggregatedResult::ByTags(page_tag_groups(&groups, offset, limit))
        },
        GroupBy::Message => {
            let groups = group_errors(&sorted, false);
            AggregatedResult::ByMessage(page_groups(&groups, offset, limit))
        },
        GroupBy::Line => {
            let groups = group_errors(&sorted, true);
            AggregatedResult::ByLine(page_groups(&groups, offset, limit))
        },
        GroupBy::Other => AggregatedResult::ByMessage(Vec::new()),
    };
    proof {
        let order = choose|order: Seq<usize>|
            #[trigger] is_stable_desc_order(created_keys(samples_view(errors@)), order)
            && samples_view(sorted@) == ordered(samples_view(errors@), order);
        assert(is_grouped_page(ordered(samples_view(errors@), order), by, offset as int, limit as int, r));
    }
    r
}

/// An error as stored: ids are UUIDs as 128-bit numbers, times are
/// milliseconds since the Unix epoch.
#[derive(Debug, Clone)]
pub struct ErrorRecord {
    pub id: u128,
    pub user_affected: String,
    pub path: String,
    pub line: i32,
    pub message: String,
    pub stack_trace: String,
    pub resolved: bool,
    pub namespace_id: u128,
    pub created_at: i64,
    pub updated_at: i64,
}

/// How often one key occurs.
#[derive(Debug, Clone)]
pub struct GroupedCount {
    pub group_key: String,
    pub count: usize,
}

/// How many elements of `s` equal `k`.
pub open spec fn count_of<A>(s: Seq<A>, k: A) -> nat
    decreases s.len(),
{
    if s.len() == 0 {
        0
    } else {
        count_of(s.drop_last(), k) + if s.last() == k { 1nat } else { 0nat }
    }
}

proof fn lemma_count_of_bound<A>(s: Seq<A>, k: A)
    ensures
        count_of(s, k) <= s.len(),
        !s.contains(k) ==> count_of(s, k) == 0,
    decreases s.len(),
{
    if s.len() > 0 {
        lemma_count_of_bound(s.drop_last(), k);
        if !s.contains(k) {
            assert(s[s.len() - 1] == s.last());
            assert(!s.drop_last().contains(k)) by {
                if s.drop_last().contains(k) {
                    let i = choose|i: int| 0 <= i < s.drop_last().len() && s.drop_last()[i] == k;
                    assert(s[i] == k);
                }
            }
        }
    }
}

/// Each distinct key of `keys`, where it first occurs, with how often it occurs.
pub open spec fn spec_tally(keys: Seq<Seq<char>>) -> Seq<(Seq<char>, nat)> {
    first_seen(keys).map_values(|k: Seq<char>| (k, count_of(keys, k)))
}

pub open spec fn counts_view(v: Seq<GroupedCount>) -> Seq<(Seq<char>, nat)> {
    v.map_values(|g: GroupedCount| (g.group_key@, g.count as nat))
}

fn find_count(r: &Vec<GroupedCount>, k: &String) -> (res: Option<usize>)
    ensures
        match res {
            Some(j) => j < r@.len() && r@[j as int].group_key@ == k@,
            None => forall|j: int| 0 <= j < r@.len() ==> #[trigger] r@[j].group_key@ != k@,
        },
{
    let mut j: usize = 0;
    while j < r.len()
        invariant
            j <= r@.len(),
            forall|jj: int| 0 <= jj < j ==> #[trigger] r@[jj].group_key@ != k@,
        decreases r@.len() - j,
    {
        if r[j].group_key == *k {
            return Some(j);
        }
        j = j + 1;
    }
    None
}

/// Counts how often each distinct key occurs, keys in the order they first occur.
pub fn tally_keys(keys: &Vec<String>) -> (r: Vec<GroupedCount>)
    ensures
        counts_view(r@) == spec_tally(strings_view(keys@)),
{
    let ghost kv = strings_view(keys@);
    let mut r: Vec<GroupedCount> = Vec::new();
    let mut i: usize = 0;
    while i < keys.len()
        invariant
            kv == strings_view(keys@),
            i <= keys@.len(),
            counts_view(r@) == spec_tally(kv.take(i as int)),
        decreases keys@.len() - i,
    {
        let ghost p = kv.take(i as int);
        let ghost p2 = kv.take(i + 1);
        let ghost fs = first_seen(p);
        let k = &keys[i];
        proof {
            assert(p2.drop_last() =~= p);
            assert(p2.last() == k@);
            lemma_first_seen_push(p, k@);
            lemma_first_seen(p);
            lemma_count_of_bound(p, k@);
        }
        let found = find_count(&r, k);
        proof { assert(counts_view(r@).len() == fs.len()); }
        let ghost before = counts_view(r@);
        if let Some(j) = found {
            proof {
                assert(before[j as int] == (fs[j as int], count_of(p, fs[j as int])));
                assert(fs[j as int] == k@);
                assert(fs.contains(k@));
            }
            let mut g = r.remove(j);
            g.count = g.count + 1;
            r.insert(j, g);
            proof {
                assert forall|jj: int| 0 <= jj < r@.len() implies #[trigger] counts_view(r@)[jj] == spec_tally(p2)[jj] by {
                    if jj != j {
                        assert(counts_view(r@)[jj] == before[jj]);
                        lemma_first_seen(p);
                        assert(fs[jj] != fs[j as int]);
                    }
                }
                assert(counts_view(r@) =~= spec_tally(p2));
            }
        } else {
            proof {
                assert(!fs.contains(k@)) by {
                    if fs.contains(k@) {
                        let jj = choose|jj: int| 0 <= jj < fs.len() && fs[jj] == k@;
                        assert(before[jj] == (fs[jj], count_of(p, fs[jj])));
                        assert(r@[jj].group_key@ == before[jj].0);
                    }
                }
                lemma_first_seen(p);
                assert(!p.contains(k@));
                lemma_count_of_bound(p, k@);
            }
            r.push(GroupedCount { group_key: k.clone(), count: 1 });
            proof {
                assert forall|jj: int| 0 <= jj < r@.len() implies #[trigger] counts_view(r@)[jj] == spec_tally(p2)[jj] by {
                    if jj < before.len() {
                        assert(counts_view(r@)[jj] == before[jj]);
                        assert(fs[jj] != k@);
                    }
                }
                assert(counts_view(r@) =~= spec_tally(p2));
            }
        }
        i = i + 1;
    }
    proof { assert(kv.take(keys@.len() as int) =~= kv); }
    r
}

/// The labels "key:value" of `tags`, in order.
pub open spec fn tag_labels(tags: Seq<(Seq<char>, Seq<char>, Seq<char>)>) -> Seq<Seq<char>> {
    tags.map_values(|t: (Seq<char>, Seq<char>, Seq<char>)| label(t))
}

/// The counts behind the namespace pie chart: by "tags", how often each
/// "key:value" label occurs among the namespace's tags; by anything else, how
/// often each message occurs among its errors.
pub fn get_error_metrics_pie_chart(group_by: &str, messages: &Vec<String>, tags: &Vec<TagNoId>) -> (r: Vec<GroupedCount>)
    ensures
        counts_view(r@) == if group_by@ == "tags"@ {
            spec_tally(tag_labels(tags_view(tags@)))
        } else {
            spec_tally(strings_view(messages@))
        },
{
    if crate::text::str_eq(group_by, "tags") {
        let mut labels: Vec<String> = Vec::new();
        let mut q: usize = 0;
        while q < tags.len()
            invariant
                q <= tags@.len(),
                strings_view(labels@) == tag_labels(tags_view(tags@)).take(q as int),
            decreases tags@.len() - q,
        {
            let l = label_chars(&tags[q]);
            let ghost before = strings_view(labels@);
            labels.push(string_from_chars(&l));
            proof {
                assert(strings_view(labels@) =~= before.push(l@));
                assert(strings_view(labels@) =~= tag_labels(tags_view(tags@)).take(q + 1));
            }
            q = q + 1;
        }
        proof { assert(tag_labels(tags_view(tags@)).take(tags@.len() as int) =~= tag_labels(tags_view(tags@))); }
        tally_keys(&labels)
    } else {
        tally_keys(messages)
    }
}

/// Which field of an error a listing of distinct values reads.
pub open spec fn meta_of(filter: Seq<char>, e: ErrorRecord) -> Seq<char> {
    if filter == "path"@ {
        e.path@
    } else if filter == "line"@ {
        signed_decimal(e.line as int)
    } else if filter == "stackTrace"@ {
        e.stack_trace@
    } else {
        e.message@
    }
}

pub open spec fn metas_of(filter: Seq<char>, errors: Seq<ErrorRecord>) -> Seq<Seq<char>> {
    errors.map_values(|e: ErrorRecord| meta_of(filter, e))
}

fn meta_text(filter: &str, e: &ErrorRecord) -> (r: String)
    ensures
        r@ == meta_of(filter@, *e),
{
    if crate::text::str_eq(filter, "path") {
        e.path.clone()
    } else if crate::text::str_eq(filter, "line") {
        let c = signed_decimal_chars(e.line as i64);
        string_from_chars(&c)
    } else if crate::text::str_eq(filter, "stackTrace") {
        e.stack_trace.clone()
    } else {
        e.message.clone()
    }
}

/// The distinct values of one field over a namespace's errors, each where it
/// first occurs: "path", "line" (in decimal), "stackTrace", and the message
/// for "message" or any other name.
pub fn get_unique_error_meta_by_namespace(errors: &Vec<ErrorRecord>, filter: &str) -> (r: Vec<String>)
    ensures
        strings_view(r@) == first_seen(metas_of(filter@, errors@)),
{
    let ghost mv = metas_of(filter@, errors@);
    let mut r: Vec<String> = Vec::new();
    let mut i: usize = 0;
    while i < errors.len()
        invariant
            mv == metas_of(filter@, errors@),
            i <= errors@.len(),
            strings_view(r@) == first_seen(mv.take(i as int)),
        decreases errors@.len() - i,
    {
        let m = meta_text(filter, &errors[i]);
        absorb_string(&mut r, &m);
        proof {
            let p2 = mv.take(i + 1);
            assert(p2.drop_last() =~= mv.take(i as int));
            assert(p2.last() == m@);
            lemma_first_seen_push(mv.take(i as int), m@);
        }
        i = i + 1;
    }
    proof { assert(mv.take(errors@.len() as int) =~= mv); }
    r
}

/// Which errors a metadata listing selects.
#[derive(Debug, Clone)]
pub enum MetaFilter {
    /// Errors carrying a tag with this key and value.
    Tag(String, String),
    /// Errors with this message.
    Message(String),
}

pub enum MetaFilterView {
    Tag(Seq<char>, Seq<char>),
    Message(Seq<char>),
}

impl View for MetaFilter {
    type V = MetaFilterView;

    open spec fn view(&self) -> MetaFilterView {
        match self {
            MetaFilter::Tag(k, v) => MetaFilterView::Tag(k@, v@),
            MetaFilter::Message(m) => MetaFilterView::Message(m@),
        }
    }
}

/// The selection a metadata listing makes: by "tags", the group key must be
/// exactly two parts around ':' (else `InvalidTag`), each trimmed; by
/// anything else, the group key is a message.
pub open spec fn spec_meta_filter(group_by: Seq<char>, group_key: Seq<char>) -> Result<MetaFilterView, ServerError> {
    if group_by == "tags"@ {
        let parts = crate::text::spec_split(group_key, ':');
        if parts.len() != 2 {
            Err(ServerError::QueryError(QueryError::InvalidTag))
        } else {
            Ok(MetaFilterView::Tag(trim(parts[0]), trim(parts[1])))
        }
    } else {
        Ok(MetaFilterView::Message(group_key))
    }
}

pub fn metadata_filter(group_by: &str, group_key: &str) -> (r: Result<MetaFilter, ServerError>)
    ensures
        match r {
            Ok(f) => spec_meta_filter(group_by@, group_key@) == Ok::<MetaFilterView, ServerError>(f@),
            Err(e) => spec_meta_filter(group_by@, group_key@) == Err::<MetaFilterView, ServerError>(e),
        },
{
    if crate::text::str_eq(group_by, "tags") {
        let chars = str_chars(group_key);
        let parts = crate::text::split_on(&chars, ':');
        if parts.len() != 2 {
            return Err(ServerError::QueryError(QueryError::InvalidTag));
        }
        let k = trim_chars(&parts[0]);
        let v = trim_chars(&parts[1]);
        Ok(MetaFilter::Tag(string_from_chars(&k), string_from_chars(&v)))
    } else {
        Ok(MetaFilter::Message(group_key.to_string()))
    }
}

/// What a metadata listing shows of one error.
#[derive(Debug, Clone, Copy, PartialEq, Eq, Structural)]
pub struct ErrorMeta {
    pub id: u128,
    pub created_at: i64,
    pub resolved: bool,
}

pub open spec fn meta_view(e: ErrorRecord) -> ErrorMeta {
    ErrorMeta { id: e.id, created_at: e.created_at, resolved: e.resolved }
}

/// The metadata of each selected error, in order.
pub fn error_metas(errors: &Vec<ErrorRecord>) -> (r: Vec<ErrorMeta>)
    ensures
        r@ == errors@.map_values(|e: ErrorRecord| meta_view(e)),
{
    let mut r: Vec<ErrorMeta> = Vec::new();
    let mut i: usize = 0;
    while i < errors.len()
        invariant
            i <= errors@.len(),
            r@ == errors@.map_values(|e: ErrorRecord| meta_view(e)).take(i as int),
        decreases errors@.len() - i,
    {
        r.push(ErrorMeta { id: errors[i].id, created_at: errors[i].created_at, resolved: errors[i].resolved });
        proof { assert(r@ =~= errors@.map_values(|e: ErrorRecord| meta_view(e)).take(i + 1)); }
        i = i + 1;
    }
    proof { assert(errors@.map_values(|e: ErrorRecord| meta_view(e)).take(errors@.len() as int) =~= errors@.map_values(|e: ErrorRecord| meta_view(e))); }
    r
}

/// Earliest second chrono's `DateTime<Utc>` can hold, since the Unix epoch.
pub const DATETIME_MIN_SECS: i64 = -8334601228800;

/// Latest second chrono's `DateTime<Utc>` can hold, since the Unix epoch.
pub const DATETIME_MAX_SECS: i64 = 8210266876799;

/// Integer division rounding toward zero, as Rust's `/` on integers.
pub open spec fn div_toward_zero(x: int, d: int) -> int {
    if x == 0 {
        0
    } else if x > 0 && d > 0 {
        x / d
    } else if x < 0 && d < 0 {
        (x * -1) / (d * -1)
    } else if x < 0 {
        ((x * -1) / d) * -1
    } else {
        (x / (d * -1)) * -1
    }
}

/// The start of the time bucket of `interval` minutes that holds second `t`
/// (buckets are aligned on multiples of the interval, counted toward zero).
pub open spec fn bucket_of(t: i64, interval: i64) -> int {
    div_toward_zero(t as int, interval * 60) * (interval * 60)
}

pub open spec fn buckets_of(ts: Seq<i64>, interval: i64) -> Seq<int> {
    ts.map_values(|t: i64| bucket_of(t, interval))
}

pub open spec fn bucket_in_range(b: int) -> bool {
    DATETIME_MIN_SECS <= b <= DATETIME_MAX_SECS
}

/// Whether chrono's `Utc.timestamp_opt(secs, 0)` gives a single instant.
/// chrono holds the seconds from the start of year -262143 to the end of
/// year 262142, which the two constants above give.
#[verifier::external_body]
fn utc_second_exists(secs: i64) -> (r: bool)
    ensures
        r == bucket_in_range(secs as int),
{
    chrono::Utc.timestamp_opt(secs, 0).single().is_some()
}

/// The instant, in seconds since the Unix epoch, at which the day
/// `year`-`month`-`day` begins in the time zone named `timezone`, by the
/// time-zone database of chrono-tz; `None` where the name is unknown, the
/// date does not exist, or local midnight is skipped or ambiguous there.
pub uninterp spec fn tz_midnight(timezone: Seq<char>, year: i32, month: u32, day: u32) -> Option<i64>;

/// chrono-tz's `from_local_datetime` of the local midnight that begins the
/// day `year`-`month`-`day` in the time zone named `timezone` (the name
/// parsed into chrono-tz's `Tz`, the date made by chrono's `from_ymd_opt`),
/// as seconds since the Unix epoch when it is a single instant. What it gives
/// rests on the time-zone database, so the contract only names it.
#[verifier::external_body]
fn local_midnight(timezone: &str, year: i32, month: u32, day: u32) -> (r: Option<i64>)
    ensures
        r == tz_midnight(timezone@, year, month, day),
{
    let tz: chrono_tz::Tz = timezone.parse().ok()?;
    let midnight = chrono::NaiveDate::from_ymd_opt(year, month, day)?.and_hms_opt(0, 0, 0)?;
    Some(tz.from_local_datetime(&midnight).single()?.timestamp())
}

/// The bounds, in seconds since the Unix epoch, of the day that begins at
/// `midnight`: from it to 24 hours later. Without a midnight the day has no
/// bounds, which fails with `InvalidTimestamp`.
pub fn day_bounds(midnight: Option<i64>) -> (r: Result<(i64, i64), ServerError>)
    requires
        midnight matches Some(s) ==> s + 86400 <= DATETIME_MAX_SECS,
    ensures
        r == match midnight {
            Some(s) => Ok::<(i64, i64), ServerError>((s, (s + 86400) as i64)),
            None => Err(ServerError::QueryError(QueryError::InvalidTimestamp)),
        },
{
    match midnight {
        Some(s) => Ok((s, s + 86400)),
        None => Err(ServerError::QueryError(QueryError::InvalidTimestamp)),
    }
}

/// The bounds of the day `year`-`month`-`day` in the time zone named
/// `timezone`, in seconds since the Unix epoch: from local midnight to 24
/// hours later, or `InvalidTimestamp` where the day has no single local
/// midnight. `None` where the day would end beyond the last instant chrono
/// can hold (adding the day overflows).
pub fn local_day_bounds(timezone: &str, year: i32, month: u32, day: u32) -> (r: Option<Result<(i64, i64), ServerError>>)
    ensures
        r == match tz_midnight(timezone@, year, month, day) {
            Some(s) => if s + 86400 <= DATETIME_MAX_SECS {
                Some(Ok::<(i64, i64), ServerError>((s, (s + 86400) as i64)))
            } else {
                None
            },
            None => Some(Err(ServerError::QueryError(QueryError::InvalidTimestamp))),
        },
{
    let midnight = local_midnight(timezone, year, month, day);
    match midnight {
        Some(s) => {
            if s > DATETIME_MAX_SECS - 86400 {
                return None;
            }
        },
        None => {},
    }
    Some(day_bounds(midnight))
}

/// How many errors fell in the bucket starting at `time` (seconds since the Unix epoch).
#[derive(Debug, Clone, Copy, PartialEq, Eq, Structural)]
pub struct TimeCount {
    pub time: i64,
    pub count: usize,
}

/// `v` lists each bucket of `bs` once, in increasing time, with how many of
/// `bs` fall in it.
pub open spec fn is_bucket_tally(bs: Seq<int>, v: Seq<TimeCount>) -> bool {
    &&& forall|i: int, j: int| 0 <= i < j < v.len() ==> #[trigger] v[i].time < #[trigger] v[j].time
    &&& forall|b: int| bs.contains(b) <==> exists|i: int| 0 <= i < v.len() && #[trigger] v[i].time == b
    &&& forall|i: int| 0 <= i < v.len() ==> #[trigger] v[i].count == count_of(bs, v[i].time as int)
}

proof fn lemma_bucket_bounds(x: int, d: int)
    requires
        d >= 2 || d <= -2,
    ensures
        x >= 0 ==> 0 <= div_toward_zero(x, d) * d <= x,
        x < 0 ==> x <= div_toward_zero(x, d) * d <= 0,
        2 * div_toward_zero(x, d) <= (if x >= 0 { x } else { -x }),
        -2 * div_toward_zero(x, d) <= (if x >= 0 { x } else { -x }),
{
    let xa = if x >= 0 { x } else { -x };
    let da = if d >= 0 { d } else { -d };
    let qa = xa / da;
    assert(0 <= qa * da <= xa) by (nonlinear_arith)
        requires
            da > 0,
            xa >= 0,
            qa == xa / da,
    ;
    assert(2 * qa <= qa * da) by (nonlinear_arith)
        requires
            da >= 2,
            qa >= 0,
    ;
    let q = div_toward_zero(x, d);
    if x == 0 {
        assert(q == 0);
    } else if x > 0 && d > 0 {
        assert(q == qa);
        assert(q * d == qa * da);
    } else if x < 0 && d < 0 {
        assert(q == qa);
        assert(q * d == -(qa * da)) by (nonlinear_arith)
            requires
                q == qa,
                d == -da,
        ;
    } else if x < 0 {
        assert(q == -qa);
        assert(q * d == -(qa * da)) by (nonlinear_arith)
            requires
                q == -qa,
                d == da,
        ;
    } else {
        assert(q == -qa);
        assert(q * d == qa * da) by (nonlinear_arith)
            requires
                q == -qa,
                d == -da,
        ;
    }
}

fn bucket_start(t: i64, interval: i64) -> (b: i64)
    requires
        interval != 0,
        i64::MIN <= interval * 60 <= i64::MAX,
    ensures
        b == bucket_of(t, interval),
{
    let d = interval * 60;
    proof {
        lemma_bucket_bounds(t as int, d as int);
    }
    match t.checked_div(d) {
        Some(q) => q * d,
        None => 0,
    }
}

/// Counts a namespace's errors per time bucket of `time_interval` minutes,
/// from their creation times in seconds: one entry per bucket that holds an
/// error, in increasing time. A bucket outside the range of instants chrono
/// can hold fails with `InvalidTimestamp`.
pub fn get_aggregate_errors_by_date(created_secs: &Vec<i64>, time_interval: i64) -> (r: Result<Vec<TimeCount>, ServerError>)
    requires
        created_secs@.len() > 0 ==> time_interval != 0 && i64::MIN <= time_interval * 60 <= i64::MAX,
    ensures
        match r {
            Ok(v) => (forall|i: int| 0 <= i < created_secs@.len() ==> bucket_in_range(#[trigger] bucket_of(created_secs@[i], time_interval)))
                && is_bucket_tally(buckets_of(created_secs@, time_interval), v@),
            Err(e) => e == ServerError::QueryError(QueryError::InvalidTimestamp)
                && exists|i: int| 0 <= i < created_secs@.len() && !bucket_in_range(#[trigger] bucket_of(created_secs@[i], time_interval)),
        },
{
    let ghost bs = buckets_of(created_secs@, time_interval);
    let mut v: Vec<TimeCount> = Vec::new();
    if created_secs.len() == 0 {
        proof { assert(bs =~= Seq::<int>::empty()); }
        return Ok(v);
    }
    let mut i: usize = 0;
    while i < created_secs.len()
        invariant
            time_interval != 0,
            i64::MIN <= time_interval * 60 <= i64::MAX,
            bs == buckets_of(created_secs@, time_interval),
            i <= created_secs@.len(),
            forall|k: int| 0 <= k < i ==> bucket_in_range(#[trigger] bucket_of(created_secs@[k], time_interval)),
            is_bucket_tally(bs.take(i as int), v@),
            v@.len() <= i,
        decreases created_secs@.len() - i,
    {
        let b = bucket_start(created_secs[i], time_interval);
        if !utc_second_exists(b) {
            return Err(ServerError::QueryError(QueryError::InvalidTimestamp));
        }
        let ghost p = bs.take(i as int);
        let ghost p2 = bs.take(i + 1);
        proof {
            assert(p2.drop_last() =~= p);
            assert(p2.last() == b as int);
            assert(bs[i as int] == b as int);
        }
        let mut pos: usize = 0;
        while pos < v.len() && v[pos].time < b
            invariant
                pos <= v@.len(),
                forall|k: int| 0 <= k < pos ==> #[trigger] v@[k].time < b,
            decreases v@.len() - pos,
        {
            pos = pos + 1;
        }
        let ghost before = v@;
        if pos < v.len() && v[pos].time == b {
            let c = v[pos].count;
            proof {
                lemma_count_of_bound(p, b as int);
                assert(c == count_of(p, b as int));
            }
            v.set(pos, TimeCount { time: b, count: c + 1 });
            proof {
                assert forall|b2: int| p2.contains(b2) <==> exists|k: int| 0 <= k < v@.len() && #[trigger] v@[k].time == b2 by {
                    if p2.contains(b2) {
                        let k = choose|k: int| 0 <= k < p2.len() && p2[k] == b2;
                        if k < p.len() {
                            assert(p[k] == b2);
                            assert(p.contains(b2));
                            let kk = choose|kk: int| 0 <= kk < before.len() && #[trigger] before[kk].time == b2;
                            assert(v@[kk].time == b2);
                        } else {
                            assert(v@[pos as int].time == b2);
                        }
                    }
                    if exists|k: int| 0 <= k < v@.len() && #[trigger] v@[k].time == b2 {
                        let k = choose|k: int| 0 <= k < v@.len() && #[trigger] v@[k].time == b2;
                        assert(before[k].time == b2);
                        assert(p.contains(b2));
                        let kk = choose|kk: int| 0 <= kk < p.len() && p[kk] == b2;
                        assert(p2[kk] == b2);
                    }
                }
                assert forall|k: int| 0 <= k < v@.len() implies #[trigger] v@[k].count == count_of(p2, v@[k].time as int) by {
                    if k != pos {
                        assert(v@[k] == before[k]);
                        assert(before[k].time != b) by {
                            if k < pos {
                            } else {
                                assert(before[pos as int].time < before[k].time);
                            }
                        }
                    }
                }
            }
        } else {
            proof {
                assert(!p.contains(b as int)) by {
                    if p.contains(b as int) {
                        let kk = choose|kk: int| 0 <= kk < before.len() && #[trigger] before[kk].time == b;
                        if kk < pos {
                        } else if kk == pos {
                        } else {
                            assert(before[pos as int].time < before[kk].time);
                        }
                    }
                }
                lemma_count_of_bound(p, b as int);
            }
            v.insert(pos, TimeCount { time: b, count: 1 });
            proof {
                assert(v@ == before.insert(pos as int, TimeCount { time: b, count: 1 }));
                assert forall|k1: int, k2: int| 0 <= k1 < k2 < v@.len() implies #[trigger] v@[k1].time < #[trigger] v@[k2].time by {
                    if k2 < pos {
                        assert(v@[k1] == before[k1] && v@[k2] == before[k2]);
                    } else if k2 == pos {
                        assert(v@[k1] == before[k1]);
                    } else if k1 < pos {
                        assert(v@[k1] == before[k1] && v@[k2] == before[k2 - 1]);
                        if k1 < pos && pos < k2 - 1 + 1 {
                            assert(before[k2 - 1].time >= b);
                        }
                    } else if k1 == pos {
                        assert(v@[k2] == before[k2 - 1]);
                        assert(before[k2 - 1].time > b) by {
                            if k2 - 1 > pos {
                                assert(before[pos as int].time < before[k2 - 1].time);
                            }
                        }
                    } else {
                        assert(v@[k1] == before[k1 - 1] && v@[k2] == before[k2 - 1]);
                    }
                }
                assert forall|b2: int| p2.contains(b2) <==> exists|k: int| 0 <= k < v@.len() && #[trigger] v@[k].time == b2 by {
                    if p2.contains(b2) {
                        let k = choose|k: int| 0 <= k < p2.len() && p2[k] == b2;
                        if k < p.len() {
                            assert(p[k] == b2);
                            assert(p.contains(b2));
                            let kk = choose|kk: int| 0 <= kk < before.len() && #[trigger] before[kk].time == b2;
                            if kk < pos {
                                assert(v@[kk].time == b2);
                            } else {
                                assert(v@[kk + 1].time == b2);
                            }
                        } else {
                            assert(v@[pos as int].time == b2);
                        }
                    }
                    if exists|k: int| 0 <= k < v@.len() && #[trigger] v@[k].time == b2 {
                        let k = choose|k: int| 0 <= k < v@.len() && #[trigger] v@[k].time == b2;
                        if k == pos {
                            assert(p2[i as int] == b2);
                        } else {
                            let kb = if k < pos { k } else { k - 1 };
                            assert(before[kb].time == b2);
                            assert(p.contains(b2));
                            let kk = choose|kk: int| 0 <= kk < p.len() && p[kk] == b2;
                            assert(p2[kk] == b2);
                        }
                    }
                }
                assert forall|k: int| 0 <= k < v@.len() implies #[trigger] v@[k].count == count_of(p2, v@[k].time as int) by {
                    if k != pos {
                        let kb = if k < pos { k } else { k - 1 };
                        assert(v@[k] == before[kb]);
                        assert(before[kb].time != b);
                    }
                }
            }
        }
        i = i + 1;
    }
    proof { assert(bs.take(created_secs@.len() as int) =~= bs); }
    Ok(v)
}

} // verus!

verus! {

/// The errors counted over all groups.
pub open spec fn group_total(gs: Seq<GroupView>) -> int
    decreases gs.len(),
{
    if gs.len() == 0 {
        0
    } else {
        group_total(gs.drop_last()) + gs.last().error_count
    }
}

/// The members of the keys `ks`, counted together.
pub open spec fn members_total(s: Seq<SampleView>, by_line: bool, ks: Seq<KeyView>) -> int
    decreases ks.len(),
{
    if ks.len() == 0 {
        0
    } else {
        members_total(s, by_line, ks.drop_last()) + members(s, by_line, ks.last()).len()
    }
}

proof fn lemma_members_total_push(s: Seq<SampleView>, by_line: bool, e: SampleView, ks: Seq<KeyView>)
    ensures
        members_total(s.push(e), by_line, ks) == members_total(s, by_line, ks) + count_of(ks, key_of(by_line, e)),
    decreases ks.len(),
{
    assert(s.push(e).drop_last() =~= s);
    if ks.len() > 0 {
        lemma_members_total_push(s, by_line, e, ks.drop_last());
    }
}

proof fn lemma_count_of_unique<A>(ks: Seq<A>, k: A)
    requires
        ks.no_duplicates(),
        ks.contains(k),
    ensures
        count_of(ks, k) == 1,
    decreases ks.len(),
{
    let d = ks.drop_last();
    assert(ks[ks.len() - 1] == ks.last());
    if ks.last() == k {
        assert(!d.contains(k)) by {
            if d.contains(k) {
                let i = choose|i: int| 0 <= i < d.len() && d[i] == k;
                assert(ks[i] == ks[ks.len() - 1]);
            }
        }
        lemma_count_of_bound(d, k);
    } else {
        let i = choose|i: int| 0 <= i < ks.len() && ks[i] == k;
        assert(d[i] == k);
        assert(d.no_duplicates()) by {
            assert forall|a: int, b: int| 0 <= a < d.len() && 0 <= b < d.len() && a != b implies d[a] != d[b] by {
                assert(ks[a] == d[a] && ks[b] == d[b]);
            }
        }
        lemma_count_of_unique(d, k);
    }
}

proof fn lemma_group_total_is_members_total(s: Seq<SampleView>, by_line: bool, ks: Seq<KeyView>)
    ensures
        group_total(ks.map_values(|k: KeyView| group_of(s, by_line, k))) == members_total(s, by_line, ks),
    decreases ks.len(),
{
    if ks.len() > 0 {
        let gs = ks.map_values(|k: KeyView| group_of(s, by_line, k));
        assert(gs.drop_last() =~= ks.drop_last().map_values(|k: KeyView| group_of(s, by_line, k)));
        lemma_group_total_is_members_total(s, by_line, ks.drop_last());
    }
}

proof fn lemma_members_total_of_keys(s: Seq<SampleView>, by_line: bool)
    ensures
        members_total(s, by_line, first_seen(keys_of(s, by_line))) == s.len(),
    decreases s.len(),
{
    if s.len() > 0 {
        let d = s.drop_last();
        let e = s.last();
        let k = key_of(by_line, e);
        assert(d.push(e) =~= s);
        lemma_members_total_of_keys(d, by_line);
        let fs = first_seen(keys_of(d, by_line));
        assert(keys_of(s, by_line) == keys_of(d, by_line).push(k));
        lemma_first_seen_push(keys_of(d, by_line), k);
        lemma_first_seen(keys_of(s, by_line));
        let fs2 = first_seen(keys_of(s, by_line));
        lemma_members_total_push(d, by_line, e, fs2);
        assert(fs2.contains(k)) by {
            assert(keys_of(s, by_line)[keys_of(s, by_line).len() - 1] == k);
        }
        lemma_count_of_unique(fs2, k);
        if !fs.contains(k) {
            lemma_first_seen(keys_of(d, by_line));
            lemma_members_absent(d, by_line, k);
            assert(fs2.drop_last() =~= fs);
        }
    }
}

/// Grouping loses and repeats nothing: the groups' error counts add up to
/// the number of errors grouped.
pub proof fn lemma_groups_cover_errors(s: Seq<SampleView>, by_line: bool)
    ensures
        group_total(spec_groups(s, by_line)) == s.len(),
{
    lemma_group_total_is_members_total(s, by_line, first_seen(keys_of(s, by_line)));
    lemma_members_total_of_keys(s, by_line);
}

/// How often the keys `ks` occur in `s`, counted together.
pub open spec fn count_total<A>(s: Seq<A>, ks: Seq<A>) -> int
    decreases ks.len(),
{
    if ks.len() == 0 {
        0
    } else {
        count_total(s, ks.drop_last()) + count_of(s, ks.last())
    }
}

/// `s` with every occurrence of `k` taken out.
pub open spec fn without<A>(s: Seq<A>, k: A) -> Seq<A>
    decreases s.len(),
{
    if s.len() == 0 {
        s
    } else {
        let w = without(s.drop_last(), k);
        if s.last() == k {
            w
        } else {
            w.push(s.last())
        }
    }
}

proof fn lemma_without<A>(s: Seq<A>, k: A)
    ensures
        without(s, k).len() + count_of(s, k) == s.len(),
        forall|j: A| j != k ==> count_of(without(s, k), j) == count_of(s, j),
        forall|x: A| #[trigger] without(s, k).contains(x) <==> (s.contains(x) && x != k),
    decreases s.len(),
{
    if s.len() > 0 {
        let d = s.drop_last();
        let e = s.last();
        lemma_without(d, k);
        let w = without(d, k);
        assert(s[s.len() - 1] == e);
        assert forall|x: A| s.contains(x) <==> (d.contains(x) || x == e) by {
            if s.contains(x) {
                let i = choose|i: int| 0 <= i < s.len() && s[i] == x;
                if i < s.len() - 1 {
                    assert(d[i] == x);
                }
            }
            if d.contains(x) {
                let i = choose|i: int| 0 <= i < d.len() && d[i] == x;
                assert(s[i] == x);
            }
        }
        assert(s.drop_last() == d);
        if e != k {
            let w2 = w.push(e);
            assert(w2.drop_last() =~= w);
            assert(w2[w.len() as int] == e);
            assert(without(s, k) == w2);
            assert forall|j: A| j != k implies count_of(without(s, k), j) == count_of(s, j) by {
                assert(count_of(w2, j) == count_of(w, j) + if e == j { 1nat } else { 0nat });
                assert(count_of(w, j) == count_of(d, j));
                assert(count_of(s, j) == count_of(d, j) + if e == j { 1nat } else { 0nat });
            }
            assert forall|x: A| #[trigger] w2.contains(x) <==> (w.contains(x) || x == e) by {
                if w2.contains(x) {
                    let i = choose|i: int| 0 <= i < w2.len() && w2[i] == x;
                    if i < w.len() {
                        assert(w[i] == x);
                    }
                }
                if w.contains(x) {
                    let i = choose|i: int| 0 <= i < w.len() && w[i] == x;
                    assert(w2[i] == x);
                }
            }
        } else {
            assert(without(s, k) == w);
            assert forall|j: A| j != k implies count_of(without(s, k), j) == count_of(s, j) by {
                assert(count_of(w, j) == count_of(d, j));
                assert(count_of(s, j) == count_of(d, j) + if e == j { 1nat } else { 0nat });
            }
        }
    }
}

proof fn lemma_count_total_congruent<A>(s1: Seq<A>, s2: Seq<A>, ks: Seq<A>)
    requires
        forall|j: A| ks.contains(j) ==> count_of(s1, j) == count_of(s2, j),
    ensures
        count_total(s1, ks) == count_total(s2, ks),
    decreases ks.len(),
{
    if ks.len() > 0 {
        let d = ks.drop_last();
        assert(ks[ks.len() - 1] == ks.last());
        assert forall|j: A| d.contains(j) implies count_of(s1, j) == count_of(s2, j) by {
            let i = choose|i: int| 0 <= i < d.len() && d[i] == j;
            assert(ks[i] == j);
        }
        lemma_count_total_congruent(s1, s2, d);
    }
}

/// Counting each distinct element of `s` once, over a list that holds each of
/// them once, counts every element of `s`.
pub proof fn lemma_count_total_distinct<A>(s: Seq<A>, ks: Seq<A>)
    requires
        ks.no_duplicates(),
        forall|x: A| #[trigger] ks.contains(x) <==> s.contains(x),
    ensures
        count_total(s, ks) == s.len(),
    decreases ks.len(),
{
    if ks.len() == 0 {
        if s.len() > 0 {
            assert(s.contains(s[0]));
            assert(!ks.contains(s[0]));
        }
    } else {
        let k = ks.last();
        let d = ks.drop_last();
        let w = without(s, k);
        lemma_without(s, k);
        assert(ks[ks.len() - 1] == k);
        assert(d.no_duplicates()) by {
            assert forall|a: int, b: int| 0 <= a < d.len() && 0 <= b < d.len() && a != b implies d[a] != d[b] by {
                assert(ks[a] == d[a] && ks[b] == d[b]);
            }
        }
        assert forall|x: A| #[trigger] d.contains(x) <==> w.contains(x) by {
            if d.contains(x) {
                let i = choose|i: int| 0 <= i < d.len() && d[i] == x;
                assert(ks[i] == x);
                assert(ks.contains(x));
                assert(x != k);
            }
            if w.contains(x) {
                assert(s.contains(x) && x != k);
                assert(ks.contains(x));
                let i = choose|i: int| 0 <= i < ks.len() && ks[i] == x;
                assert(i != ks.len() - 1);
                assert(d[i] == x);
            }
        }
        lemma_count_total_distinct(w, d);
        assert forall|j: A| d.contains(j) implies count_of(s, j) == count_of(w, j) by {
            let i = choose|i: int| 0 <= i < d.len() && d[i] == j;
            assert(ks[i] == j);
        }
        lemma_count_total_congruent(s, w, d);
    }
}

/// The counts of a tally, added up.
pub open spec fn tally_total(v: Seq<(Seq<char>, nat)>) -> int
    decreases v.len(),
{
    if v.len() == 0 {
        0
    } else {
        tally_total(v.drop_last()) + v.last().1
    }
}

proof fn lemma_tally_total_is_count_total(keys: Seq<Seq<char>>, ks: Seq<Seq<char>>)
    ensures
        tally_total(ks.map_values(|k: Seq<char>| (k, count_of(keys, k)))) == count_total(keys, ks),
    decreases ks.len(),
{
    if ks.len() > 0 {
        let v = ks.map_values(|k: Seq<char>| (k, count_of(keys, k)));
        assert(v.drop_last() =~= ks.drop_last().map_values(|k: Seq<char>| (k, count_of(keys, k))));
        lemma_tally_total_is_count_total(keys, ks.drop_last());
    }
}

/// A tally loses and repeats nothing: its counts add up to the number of
/// keys tallied.
pub proof fn lemma_tally_covers_keys(keys: Seq<Seq<char>>)
    ensures
        tally_total(spec_tally(keys)) == keys.len(),
{
    lemma_tally_total_is_count_total(keys, first_seen(keys));
    lemma_first_seen(keys);
    lemma_count_total_distinct(keys, first_seen(keys));
}

/// The counts of a list of time buckets, added up.
pub open spec fn bucket_total(v: Seq<TimeCount>) -> int
    decreases v.len(),
{
    if v.len() == 0 {
        0
    } else {
        bucket_total(v.drop_last()) + v.last().count
    }
}

pub open spec fn bucket_times(v: Seq<TimeCount>) -> Seq<int> {
    v.map_values(|c: TimeCount| c.time as int)
}

proof fn lemma_bucket_total_is_count_total(bs: Seq<int>, v: Seq<TimeCount>)
    requires
        forall|i: int| 0 <= i < v.len() ==> #[trigger] v[i].count == count_of(bs, v[i].time as int),
    ensures
        bucket_total(v) == count_total(bs, bucket_times(v)),
    decreases v.len(),
{
    if v.len() > 0 {
        let d = v.drop_last();
        assert(bucket_times(d) =~= bucket_times(v).drop_last());
        assert forall|i: int| 0 <= i < d.len() implies #[trigger] d[i].count == count_of(bs, d[i].time as int) by {
            assert(d[i] == v[i]);
        }
        lemma_bucket_total_is_count_total(bs, d);
        assert(v[v.len() - 1] == v.last());
    }
}

/// The buckets of a day's chart lose and repeat nothing: their counts add up
/// to the number of errors bucketed.
pub proof fn lemma_buckets_cover_errors(bs: Seq<int>, v: Seq<TimeCount>)
    requires
        is_bucket_tally(bs, v),
    ensures
        bucket_total(v) == bs.len(),
{
    let ts = bucket_times(v);
    lemma_bucket_total_is_count_total(bs, v);
    assert(ts.no_duplicates()) by {
        assert forall|i: int, j: int| 0 <= i < ts.len() && 0 <= j < ts.len() && i != j implies ts[i] != ts[j] by {
            if i < j {
                assert(v[i].time < v[j].time);
            } else {
                assert(v[j].time < v[i].time);
            }
        }
    }
    assert forall|x: int| #[trigger] ts.contains(x) <==> bs.contains(x) by {
        if ts.contains(x) {
            let i = choose|i: int| 0 <= i < ts.len() && ts[i] == x;
            assert(v[i].time == x);
        }
        if bs.contains(x) {
            let i = choose|i: int| 0 <= i < v.len() && v[i].time == x;
            assert(ts[i] == x);
        }
    }
    lemma_count_total_distinct(bs, ts);
}

/// The occurrences counted over all tag groups.
pub open spec fn tag_group_total(gs: Seq<TagGroupView>) -> int
    decreases gs.len(),
{
    if gs.len() == 0 {
        0
    } else {
        tag_group_total(gs.drop_last()) + gs.last().error_count
    }
}

/// The tags of the errors `s`, counted with repeats.
pub open spec fn tags_total(s: Seq<SampleView>) -> int
    decreases s.len(),
{
    if s.len() == 0 {
        0
    } else {
        tags_total(s.drop_last()) + s.last().tags.len()
    }
}

proof fn lemma_with_user_len(ts: Seq<(Seq<char>, Seq<char>, Seq<char>)>, u: Seq<char>)
    ensures
        with_user(ts, u).len() == ts.len(),
    decreases ts.len(),
{
    if ts.len() > 0 {
        lemma_with_user_len(ts.drop_last(), u);
    }
}

proof fn lemma_tag_items_len(s: Seq<SampleView>)
    ensures
        tag_items(s).len() == tags_total(s),
    decreases s.len(),
{
    if s.len() > 0 {
        lemma_tag_items_len(s.drop_last());
        lemma_with_user_len(s.last().tags, s.last().user);
    }
}

proof fn lemma_occurrences_count(items: Seq<((Seq<char>, Seq<char>, Seq<char>), Seq<char>)>, t: (Seq<char>, Seq<char>, Seq<char>))
    ensures
        occurrences(items, t) == count_of(item_tags(items), t),
    decreases items.len(),
{
    if items.len() > 0 {
        lemma_occurrences_count(items.drop_last(), t);
        let it = item_tags(items);
        assert(it.drop_last() =~= item_tags(items.drop_last()));
    }
}

proof fn lemma_tag_group_total_is_count_total(
    items: Seq<((Seq<char>, Seq<char>, Seq<char>), Seq<char>)>,
    ts: Seq<(Seq<char>, Seq<char>, Seq<char>)>,
)
    ensures
        tag_group_total(ts.map_values(|t: (Seq<char>, Seq<char>, Seq<char>)| tag_group_of(items, t)))
            == count_total(item_tags(items), ts),
    decreases ts.len(),
{
    if ts.len() > 0 {
        let gs = ts.map_values(|t: (Seq<char>, Seq<char>, Seq<char>)| tag_group_of(items, t));
        assert(gs.drop_last() =~= ts.drop_last().map_values(|t: (Seq<char>, Seq<char>, Seq<char>)| tag_group_of(items, t)));
        lemma_tag_group_total_is_count_total(items, ts.drop_last());
        lemma_occurrences_count(items, ts.last());
    }
}

/// Grouping by tag loses and repeats nothing: the tag groups' counts add up
/// to the number of tags on the errors grouped.
pub proof fn lemma_tag_groups_cover_tags(s: Seq<SampleView>)
    ensures
        tag_group_total(spec_tag_groups(s)) == tags_total(s),
{
    let items = tag_items(s);
    let it = item_tags(items);
    lemma_tag_group_total_is_count_total(items, first_seen(it));
    lemma_first_seen(it);
    lemma_count_total_distinct(it, first_seen(it));
    lemma_item_lens(items);
    lemma_tag_items_len(s);
}

} // verus!
