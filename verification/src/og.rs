//! Open Graph metadata extraction: selecting the `og:`-prefixed `meta`
//! elements of an HTML document, and folding their `property`/`content`
//! attribute pairs into a mapping in which the later occurrence of a
//! property overwrites the earlier one.

use vstd::prelude::*;
use crate::strutil::str_eq;
use crate::entrymap::{map_of, entry_keys_distinct};
use crate::json::{json_encode_entries, json_of};

verus! {

/// The `property` and `content` attribute values, in document order, of the
/// `meta` elements of the document whose `property` attribute begins with
/// `og:`. What this sequence is for a given document is decided by the HTML
/// parser and is a function of the document text alone.
pub uninterp spec fn og_meta_of(html: Seq<char>) -> Seq<(Option<Seq<char>>, Option<Seq<char>>)>;

/// One step of the extraction fold: a pair that carries both a property and
/// a content inserts `property -> content`; any other pair is skipped.
pub open spec fn og_insert(
    m: Map<Seq<char>, Seq<char>>,
    meta: (Option<Seq<char>>, Option<Seq<char>>),
) -> Map<Seq<char>, Seq<char>> {
    match meta {
        (Some(p), Some(c)) => m.insert(p, c),
        _ => m,
    }
}

/// The mapping extracted from a sequence of `property`/`content` attribute
/// pairs: pairs are folded in document order, so the later occurrence of a
/// property wins.
pub open spec fn og_map(metas: Seq<(Option<Seq<char>>, Option<Seq<char>>)>) -> Map<
    Seq<char>,
    Seq<char>,
>
    decreases metas.len(),
{
    if metas.len() == 0 {
        Map::empty()
    } else {
        og_insert(og_map(metas.drop_last()), metas.last())
    }
}

/// A property is mapped exactly when some pair carries it together with a
/// content value: a `meta` element with a `property` but no `content`
/// contributes nothing.
pub proof fn lemma_og_map_contains_key(
    metas: Seq<(Option<Seq<char>>, Option<Seq<char>>)>,
    p: Seq<char>,
)
    ensures
        og_map(metas).contains_key(p) <==> exists|i: int|
            0 <= i < metas.len() && (#[trigger] metas[i]).0 == Some(p) && metas[i].1 is Some,
    decreases metas.len(),
{
    if metas.len() == 0 {
    } else {
        let sub = metas.drop_last();
        let last = metas.last();
        lemma_og_map_contains_key(sub, p);
        assert(last == metas[metas.len() - 1]);
        if og_map(metas).contains_key(p) {
            if last.0 == Some(p) && last.1 is Some {
                assert((metas[metas.len() - 1]).0 == Some(p));
            } else {
                let i = choose|i: int|
                    0 <= i < sub.len() && (#[trigger] sub[i]).0 == Some(p) && sub[i].1 is Some;
                assert((metas[i]).0 == Some(p) && metas[i].1 is Some);
            }
        }
        if exists|i: int|
            0 <= i < metas.len() && (#[trigger] metas[i]).0 == Some(p) && metas[i].1 is Some {
            let i = choose|i: int|
                0 <= i < metas.len() && (#[trigger] metas[i]).0 == Some(p) && metas[i].1 is Some;
            if i < metas.len() - 1 {
                assert((sub[i]).0 == Some(p) && sub[i].1 is Some);
                assert(og_map(sub).contains_key(p));
            }
        }
    }
}

/// When a property appears with a content value and no later pair carries
/// the same property with a content value, the mapping holds that latest
/// content: the later occurrence of a property overwrites the earlier ones.
pub proof fn lemma_og_map_last_wins(
    metas: Seq<(Option<Seq<char>>, Option<Seq<char>>)>,
    i: int,
    p: Seq<char>,
    c: Seq<char>,
)
    requires
        0 <= i < metas.len(),
        metas[i] == (Some(p), Some(c)),
        forall|j: int|
            i < j < metas.len() ==> !((#[trigger] metas[j]).0 == Some(p) && metas[j].1 is Some),
    ensures
        og_map(metas).contains_key(p),
        og_map(metas)[p] == c,
    decreases metas.len(),
{
    let sub = metas.drop_last();
    let last = metas.last();
    assert(last == metas[metas.len() - 1]);
    if i == metas.len() - 1 {
        assert(last == (Some(p), Some(c)));
    } else {
        assert(!(last.0 == Some(p) && last.1 is Some));
        assert(sub[i] == metas[i]);
        assert forall|j: int|
            i < j < sub.len() implies !((#[trigger] sub[j]).0 == Some(p) && sub[j].1 is Some) by {
            assert(sub[j] == metas[j]);
        }
        lemma_og_map_last_wins(sub, i, p, c);
        match last {
            (Some(q), Some(v)) => {
                assert(q != p);
            },
            _ => {},
        }
    }
}

/// The extracted Open Graph metadata: a mapping from property name to
/// content string with pairwise-distinct keys, viewed as a
/// `Map<Seq<char>, Seq<char>>`.
pub struct OpenGraphData {
    entries: Vec<(String, String)>,
}

impl View for OpenGraphData {
    type V = Map<Seq<char>, Seq<char>>;

    closed spec fn view(&self) -> Map<Seq<char>, Seq<char>> {
        map_of(self.entries.deep_view())
    }
}

impl OpenGraphData {
    /// Well-formedness: no property name occurs twice among the entries.
    pub closed spec fn wf(self) -> bool {
        entry_keys_distinct(self.entries.deep_view())
    }

    /// An empty mapping.
    pub fn new() -> (r: OpenGraphData)
        ensures
            r.wf(),
            r@ == Map::<Seq<char>, Seq<char>>::empty(),
    {
        let r = OpenGraphData { entries: Vec::new() };
        proof {
            assert(r.entries.deep_view().len() == 0);
        }
        r
    }

    /// The number of properties held.
    pub fn len(&self) -> (r: usize)
        requires
            self.wf(),
        ensures
            r == self@.len(),
    {
        proof {
            crate::entrymap::lemma_map_of_len(self.entries.deep_view());
        }
        self.entries.len()
    }

    /// The index of the entry holding `key`, if any.
    fn find(entries: &Vec<(String, String)>, key: &str) -> (r: Option<usize>)
        ensures
            match r {
                Some(i) => i < entries@.len() && entries.deep_view()[i as int].0 == key@,
                None => forall|j: int|
                    0 <= j < entries@.len() ==> (#[trigger] entries.deep_view()[j]).0 != key@,
            },
    {
        let n = entries.len();
        let mut i: usize = 0;
        while i < n
            invariant
                i <= n,
                n == entries@.len(),
                forall|j: int| 0 <= j < i ==> (#[trigger] entries.deep_view()[j]).0 != key@,
            decreases n - i,
        {
            if str_eq(entries[i].0.as_str(), key) {
                proof {
                    assert(entries.deep_view()[i as int].0 == entries@[i as int].0@);
                }
                return Some(i);
            }
            proof {
                assert(entries.deep_view()[i as int].0 == entries@[i as int].0@);
            }
            i = i + 1;
        }
        None
    }

    /// The content stored for a property, if any.
    pub fn get(&self, key: &str) -> (r: Option<&String>)
        requires
            self.wf(),
        ensures
            match r {
                Some(v) => self@.contains_key(key@) && v@ == self@[key@],
                None => !self@.contains_key(key@),
            },
    {
        let ghost dv = self.entries.deep_view();
        match Self::find(&self.entries, key) {
            Some(i) => {
                proof {
                    assert forall|j: int| (i as int) < j < dv.len() implies (#[trigger] dv[j]).0
                        != dv[i as int].0 by {}
                    crate::entrymap::lemma_map_of_last_wins(dv, i as int);
                    assert(dv[i as int].1 == self.entries@[i as int].1@);
                }
                Some(&self.entries[i].1)
            },
            None => {
                proof {
                    crate::entrymap::lemma_map_of_contains_key(dv, key@);
                }
                None
            },
        }
    }

    /// Insert `key -> value`, overwriting any earlier content for `key`.
    pub fn insert(&mut self, key: String, value: String)
        requires
            old(self).wf(),
        ensures
            final(self).wf(),
            final(self)@ == old(self)@.insert(key@, value@),
    {
        let ghost dv = self.entries.deep_view();
        match Self::find(&self.entries, key.as_str()) {
            Some(i) => {
                self.entries.remove(i);
                self.entries.insert(i, (key, value));
                proof {
                    let new_dv = self.entries.deep_view();
                    assert(self.entries@ =~= old(self).entries@.update(i as int, (key, value)));
                    assert(new_dv =~= dv.update(i as int, (key@, value@)));
                    crate::entrymap::lemma_map_of_update(dv, i as int, value@);
                    assert forall|a: int, b: int|
                        0 <= a < b < new_dv.len() implies (#[trigger] new_dv[a]).0
                        != (#[trigger] new_dv[b]).0 by {
                        assert(dv[a].0 == if a == i as int { key@ } else { new_dv[a].0 });
                        assert(dv[b].0 == if b == i as int { key@ } else { new_dv[b].0 });
                    }
                }
            },
            None => {
                self.entries.push((key, value));
                proof {
                    let new_dv = self.entries.deep_view();
                    assert(new_dv =~= dv.push((key@, value@)));
                    assert(new_dv.drop_last() =~= dv);
                    assert(new_dv.last() == (key@, value@));
                    assert(map_of(new_dv) == map_of(dv).insert(key@, value@));
                    assert forall|a: int, b: int|
                        0 <= a < b < new_dv.len() implies (#[trigger] new_dv[a]).0
                        != (#[trigger] new_dv[b]).0 by {
                        if b < dv.len() {
                            assert(dv[a] == new_dv[a]);
                            assert(dv[b] == new_dv[b]);
                        } else {
                            assert(new_dv[b].0 == key@);
                            assert(dv[a] == new_dv[a]);
                        }
                    }
                }
            },
        }
    }

    /// Serialize the mapping as a JSON object.
    pub fn to_json(&self) -> (r: Result<String, String>)
        requires
            self.wf(),
        ensures
            r is Ok,
            r matches Ok(s) ==> s@ == json_of(self@),
            r matches Ok(s) ==> (self@.len() == 0 ==> s@ == "{}"@),
    {
        proof {
            crate::entrymap::lemma_map_of_len(self.entries.deep_view());
        }
        json_encode_entries(&self.entries)
    }
}

/// Relies on scraper's `Html::parse_document`, `Selector::parse` and
/// `Html::select`: parsing is lenient and never fails, the selector
/// `meta[property^="og:"]` matches the `meta` elements whose `property`
/// attribute begins with `og:`, and `select` yields them in document order.
/// The attribute pairs handed back are a function of the document text
/// alone; `og_meta_of` names them.
#[verifier::external_body]
fn select_og_meta(html: &str) -> (r: Vec<(Option<String>, Option<String>)>)
    ensures
        r.deep_view() == og_meta_of(html@),
{
    let document = scraper::Html::parse_document(html);
    let selector = scraper::Selector::parse("meta[property^=\"og:\"]").unwrap();
    let mut out = Vec::new();
    for element in document.select(&selector) {
        let value = element.value();
        out.push((
            value.attr("property").map(String::from),
            value.attr("content").map(String::from),
        ));
    }
    out
}

/// Extract the Open Graph metadata of an HTML document: every `meta`
/// element whose `property` begins with `og:` and carries both a `property`
/// and a `content` attribute contributes `property -> content`, later
/// occurrences overwriting earlier ones.
pub fn parse_open_graph(html: &str) -> (r: OpenGraphData)
    ensures
        r.wf(),
        r@ == og_map(og_meta_of(html@)),
{
    let metas = select_og_meta(html);
    let ghost gm = metas.deep_view();
    let mut data = OpenGraphData::new();
    let n = metas.len();
    let mut idx: usize = 0;
    while idx < n
        invariant
            idx <= n,
            n == metas@.len(),
            gm == metas.deep_view(),
            data.wf(),
            data@ == og_map(gm.take(idx as int)),
        decreases n - idx,
    {
        let pair = &metas[idx];
        proof {
            assert(gm[idx as int] == (pair.0.deep_view(), pair.1.deep_view()));
        }
        match (&pair.0, &pair.1) {
            (Some(p), Some(c)) => {
                data.insert(p.clone(), c.clone());
            },
            _ => {},
        }
        proof {
            assert(gm.take(idx + 1).drop_last() =~= gm.take(idx as int));
            assert(gm.take(idx + 1).last() == gm[idx as int]);
            assert(data@ == og_insert(og_map(gm.take(idx as int)), gm[idx as int]));
        }
        idx = idx + 1;
    }
    proof {
        assert(gm.take(n as int) =~= gm);
    }
    data
}

} // verus!
