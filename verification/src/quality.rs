//! Quality options and the ranked list that holds them.

use vstd::prelude::*;

verus! {

/// The resolution of a variant, by which a list is ranked.
#[derive(Clone, Copy, Debug, PartialEq, Eq, Structural)]
pub enum Resolution {
    P360,
    P540,
    P720,
    P1080,
    Unknown,
}

impl Resolution {
    /// The rank of a resolution: higher is better, unknown is lowest.
    pub open spec fn rank_spec(self) -> nat {
        match self {
            Resolution::P1080 => 4,
            Resolution::P720 => 3,
            Resolution::P540 => 2,
            Resolution::P360 => 1,
            Resolution::Unknown => 0,
        }
    }

    /// The text by which a resolution is shown in a label.
    pub open spec fn tag_spec(self) -> Seq<char> {
        match self {
            Resolution::P1080 => "1080P"@,
            Resolution::P720 => "720P"@,
            Resolution::P540 => "540P"@,
            Resolution::P360 => "360P"@,
            Resolution::Unknown => "未知"@,
        }
    }

    pub fn rank(self) -> (r: u8)
        ensures
            r == self.rank_spec(),
    {
        match self {
            Resolution::P1080 => 4,
            Resolution::P720 => 3,
            Resolution::P540 => 2,
            Resolution::P360 => 1,
            Resolution::Unknown => 0,
        }
    }

    pub fn tag(self) -> (r: &'static str)
        ensures
            r@ == self.tag_spec(),
    {
        match self {
            Resolution::P1080 => "1080P",
            Resolution::P720 => "720P",
            Resolution::P540 => "540P",
            Resolution::P360 => "360P",
            Resolution::Unknown => "未知",
        }
    }
}

/// One downloadable variant.
#[derive(Debug)]
pub struct QualityOption {
    pub label: String,
    pub url: String,
    pub resolution_tag: Resolution,
}

/// What a quality option holds, as plain values.
pub ghost struct QualityView {
    pub label: Seq<char>,
    pub url: Seq<char>,
    pub resolution_tag: Resolution,
}

impl View for QualityOption {
    type V = QualityView;

    open spec fn view(&self) -> QualityView {
        QualityView { label: self.label@, url: self.url@, resolution_tag: self.resolution_tag }
    }
}

/// The views of a list's entries, in order.
pub open spec fn views(list: Seq<QualityOption>) -> Seq<QualityView> {
    Seq::new(list.len(), |i: int| list[i]@)
}

/// Some entry of the list has the address `url`.
pub open spec fn has_url(list: Seq<QualityView>, url: Seq<char>) -> bool {
    exists|i: int| 0 <= i < list.len() && #[trigger] list[i].url == url
}

/// No two entries share an address.
pub open spec fn distinct_urls(list: Seq<QualityView>) -> bool {
    forall|i: int, j: int| 0 <= i < j < list.len() ==> #[trigger] list[i].url != #[trigger] list[j].url
}

/// The ranks never rise along the list.
pub open spec fn ranked(list: Seq<QualityView>) -> bool {
    forall|i: int, j: int|
        0 <= i < j < list.len() ==> #[trigger] list[i].resolution_tag.rank_spec()
            >= #[trigger] list[j].resolution_tag.rank_spec()
}

/// The first index at or after `i` whose entry ranks below `rank`, or the
/// list's length where there is none.
pub open spec fn slot_from(list: Seq<QualityView>, rank: nat, i: int) -> int
    decreases list.len() - i,
{
    if i < 0 || i >= list.len() {
        list.len() as int
    } else if list[i].resolution_tag.rank_spec() < rank {
        i
    } else {
        slot_from(list, rank, i + 1)
    }
}

/// The list after a candidate was offered: one whose address the list already
/// holds is dropped; another goes behind every entry of its own or a higher
/// rank, and before the entries of lower rank.
pub open spec fn offered(list: Seq<QualityView>, q: QualityView) -> Seq<QualityView> {
    if has_url(list, q.url) {
        list
    } else {
        list.insert(slot_from(list, q.resolution_tag.rank_spec(), 0), q)
    }
}

/// The list that the candidates give when they are offered in the order in
/// which they were found.
pub open spec fn arrange(found: Seq<QualityView>) -> Seq<QualityView>
    decreases found.len(),
{
    if found.len() == 0 {
        Seq::empty()
    } else {
        offered(arrange(found.drop_last()), found.last())
    }
}

/// Where `slot_from` points: inside the list's bounds, behind entries that do
/// not rank below `rank`, and at an entry that does, if at any.
pub proof fn lemma_slot_from(list: Seq<QualityView>, rank: nat, i: int)
    requires
        0 <= i <= list.len(),
    ensures
        i <= slot_from(list, rank, i) <= list.len(),
        forall|k: int|
            i <= k < slot_from(list, rank, i) ==> #[trigger] list[k].resolution_tag.rank_spec()
                >= rank,
        slot_from(list, rank, i) < list.len() ==> list[slot_from(
            list,
            rank,
            i,
        )].resolution_tag.rank_spec() < rank,
    decreases list.len() - i,
{
    if i < list.len() && list[i].resolution_tag.rank_spec() >= rank {
        lemma_slot_from(list, rank, i + 1);
    }
}

/// Offering a candidate to a ranked list without repeated addresses gives
/// such a list again.
pub proof fn lemma_offered_keeps_order(list: Seq<QualityView>, q: QualityView)
    requires
        ranked(list),
        distinct_urls(list),
    ensures
        ranked(offered(list, q)),
        distinct_urls(offered(list, q)),
        has_url(offered(list, q), q.url),
{
    if !has_url(list, q.url) {
        let rank = q.resolution_tag.rank_spec();
        let p = slot_from(list, rank, 0);
        lemma_slot_from(list, rank, 0);
        let out = list.insert(p, q);
        assert forall|i: int, j: int| 0 <= i < j < out.len() implies #[trigger] out[i].url
            != #[trigger] out[j].url by {
            if i != p && j != p {
                let a = if i < p { i } else { i - 1 };
                let b = if j < p { j } else { j - 1 };
                assert(out[i] == list[a] && out[j] == list[b]);
            } else if i == p {
                assert(out[j] == list[j - 1]);
            } else {
                assert(out[i] == list[i]);
            }
        }
        assert forall|i: int, j: int| 0 <= i < j < out.len() implies #[trigger] out[i].resolution_tag.rank_spec()
            >= #[trigger] out[j].resolution_tag.rank_spec() by {
            if i != p && j != p {
                let a = if i < p { i } else { i - 1 };
                let b = if j < p { j } else { j - 1 };
                assert(out[i] == list[a] && out[j] == list[b]);
            } else if i == p {
                assert(out[j] == list[j - 1]);
                if p < j - 1 {
                    assert(list[p].resolution_tag.rank_spec() >= list[j - 1].resolution_tag.rank_spec());
                }
            } else {
                assert(out[i] == list[i]);
            }
        }
        assert(out[p].url == q.url);
    }
}

/// The arranged list is ranked from the best resolution down and holds no
/// address twice, whatever was found.
pub proof fn lemma_arrange_ranked_distinct(found: Seq<QualityView>)
    ensures
        ranked(arrange(found)),
        distinct_urls(arrange(found)),
    decreases found.len(),
{
    if found.len() > 0 {
        lemma_arrange_ranked_distinct(found.drop_last());
        lemma_offered_keeps_order(arrange(found.drop_last()), found.last());
    }
}

/// The arranged list holds the address of everything that was found, holds
/// nothing that was not found, and is no longer than what was found.
pub proof fn lemma_arrange_complete(found: Seq<QualityView>)
    ensures
        forall|i: int| 0 <= i < found.len() ==> has_url(arrange(found), #[trigger] found[i].url),
        forall|j: int|
            0 <= j < arrange(found).len() ==> found.contains(#[trigger] arrange(found)[j]),
        arrange(found).len() <= found.len(),
    decreases found.len(),
{
    if found.len() > 0 {
        let rest = found.drop_last();
        let q = found.last();
        let prev = arrange(rest);
        let out = arrange(found);
        lemma_arrange_complete(rest);
        lemma_arrange_ranked_distinct(rest);
        lemma_offered_keeps_order(prev, q);
        let p = slot_from(prev, q.resolution_tag.rank_spec(), 0);
        lemma_slot_from(prev, q.resolution_tag.rank_spec(), 0);
        assert forall|i: int| 0 <= i < found.len() implies has_url(out, #[trigger] found[i].url) by {
            if i < rest.len() {
                assert(rest[i] == found[i]);
                assert(has_url(prev, rest[i].url));
                let w = choose|w: int| 0 <= w < prev.len() && #[trigger] prev[w].url == found[i].url;
                if !has_url(prev, q.url) {
                    let moved = if w < p {
                        w
                    } else {
                        w + 1
                    };
                    assert(out[moved] == prev[w]);
                }
            }
        }
        assert forall|j: int| 0 <= j < out.len() implies found.contains(#[trigger] out[j]) by {
            if has_url(prev, q.url) || j != p {
                let w = if has_url(prev, q.url) || j < p {
                    j
                } else {
                    j - 1
                };
                assert(out[j] == prev[w]);
                assert(rest.contains(prev[w]));
                let k = choose|k: int| 0 <= k < rest.len() && rest[k] == prev[w];
                assert(found[k] == prev[w]);
            } else {
                assert(out[j] == found[found.len() - 1]);
            }
        }
    }
}

/// Tells whether some entry of the list has the address `url`.
pub fn holds_url(list: &Vec<QualityOption>, url: &String) -> (r: bool)
    ensures
        r == has_url(views(list@), url@),
{
    let mut i: usize = 0;
    while i < list.len()
        invariant
            i <= list.len(),
            forall|k: int| 0 <= k < i ==> (#[trigger] views(list@)[k]).url != url@,
        decreases list.len() - i,
    {
        if list[i].url == *url {
            assert(views(list@)[i as int].url == url@);
            return true;
        }
        i += 1;
    }
    false
}

/// Offers a candidate to the list: it is dropped where the list already holds
/// its address, and else put behind the entries that do not rank below it.
pub fn offer(list: &mut Vec<QualityOption>, q: QualityOption)
    ensures
        views(final(list)@) == offered(views(old(list)@), q@),
{
    if holds_url(list, &q.url) {
        return ;
    }
    let rank = q.resolution_tag.rank();
    let ghost before = views(list@);
    let mut i: usize = 0;
    while i < list.len() && list[i].resolution_tag.rank() >= rank
        invariant
            i <= list.len(),
            views(list@) == before,
            slot_from(before, rank as nat, 0) == slot_from(before, rank as nat, i as int),
        decreases list.len() - i,
    {
        assert(before[i as int] == list[i as int]@);
        i += 1;
    }
    proof {
        if i < list.len() {
            assert(before[i as int] == list[i as int]@);
        }
    }
    list.insert(i, q);
    assert(views(list@) =~= before.insert(i as int, q@));
}

} // verus!
