//! The canonical form of a source URL: sources that differ only in the
//! case of scheme and host, in the order of their query parameters or in a
//! fragment have the same canonical form.

use crate::bytes::{append_bytes, copy_range};
use crate::error::TranscodeError;
use crate::scan::{find_stop, first_stop, Stop};
use crate::ordering::{
    byte_order, comes_first, lemma_byte_order_is_total, lemma_is_sorted, precedes, sorted,
};
use vstd::prelude::*;
use vstd::relations::sorted_by;

verus! {

/// Whether a byte may stand in a scheme, at its start or behind it.
pub open spec fn scheme_byte(byte: u8, first: bool) -> bool {
    (65 <= byte <= 90) || (97 <= byte <= 122) || (!first && ((48 <= byte <= 57) || byte == 43
        || byte == 45 || byte == 46))
}

/// Whether a text is a scheme: a letter, then letters, digits, `+`, `-`, `.`.
pub open spec fn is_scheme(text: Seq<u8>) -> bool {
    text.len() > 0 && forall|i: int| 0 <= i < text.len() ==> scheme_byte(#[trigger] text[i], i == 0)
}

/// Whether a text is made of visible ASCII characters only.
pub open spec fn is_visible(text: Seq<u8>) -> bool {
    forall|i: int| 0 <= i < text.len() ==> 33 <= #[trigger] text[i] <= 126
}

/// The parts of a source URL.
pub struct PartsView {
    pub scheme: Seq<u8>,
    pub authority: Seq<u8>,
    pub path: Seq<u8>,
    pub query: Seq<u8>,
}

/// The parts of a source URL, each as it was written.
#[derive(Debug)]
pub struct SourceParts {
    pub scheme: Vec<u8>,
    pub authority: Vec<u8>,
    pub path: Vec<u8>,
    pub query: Vec<u8>,
}

impl View for SourceParts {
    type V = PartsView;

    open spec fn view(&self) -> PartsView {
        PartsView {
            scheme: self.scheme@,
            authority: self.authority@,
            path: self.path@,
            query: self.query@,
        }
    }
}

/// The parts of `url`, if it is a URL: visible ASCII, a scheme, `://`, an
/// authority that is not empty, then path, query and fragment as far as
/// they are there. The fragment is no part of the source.
pub open spec fn parts_of(url: Seq<u8>) -> Option<PartsView> {
    let colon = first_stop(url, Stop::Colon, 0);
    let host = colon + 3;
    let host_end = first_stop(url, Stop::AuthorityEnd, host);
    let path_end = first_stop(url, Stop::PathEnd, host_end);
    let query_end = first_stop(url, Stop::Fragment, path_end);
    if is_visible(url) && colon + 2 < url.len() && url[colon + 1] == 47 && url[colon + 2] == 47
        && is_scheme(url.subrange(0, colon)) && host < host_end {
        Some(
            PartsView {
                scheme: url.subrange(0, colon),
                authority: url.subrange(host, host_end),
                path: url.subrange(host_end, path_end),
                query: if path_end < query_end {
                    url.subrange(path_end + 1, query_end)
                } else {
                    Seq::empty()
                },
            },
        )
    } else {
        None
    }
}

/// A letter in lower case; any other byte as it is.
pub open spec fn lower_byte(byte: u8) -> u8 {
    if 65 <= byte <= 90 {
        (byte + 32) as u8
    } else {
        byte
    }
}

/// A text with its letters in lower case.
pub open spec fn lowered(text: Seq<u8>) -> Seq<u8> {
    text.map_values(|byte: u8| lower_byte(byte))
}

/// The parameters of a query: what stands between its `&`s.
pub open spec fn pieces(query: Seq<u8>) -> Seq<Seq<u8>>
    decreases query.len(),
{
    if query.len() == 0 {
        seq![Seq::empty()]
    } else {
        let before = pieces(query.drop_last());
        if query.last() == 38 {
            before.push(Seq::empty())
        } else {
            before.drop_last().push(before.last().push(query.last()))
        }
    }
}

/// Parameters put together again, with `&` between them.
pub open spec fn joined(items: Seq<Seq<u8>>) -> Seq<u8>
    decreases items.len(),
{
    if items.len() == 0 {
        Seq::empty()
    } else if items.len() == 1 {
        items[0]
    } else {
        joined(items.drop_last()) + seq![38u8] + items.last()
    }
}

/// A query with its parameters in order.
pub open spec fn canonical_query(query: Seq<u8>) -> Seq<u8> {
    joined(sorted(pieces(query)))
}

impl PartsView {
    /// The canonical form: scheme and authority in lower case, the path as
    /// it is or `/` for none, the query, if there is one, with its
    /// parameters in order.
    pub open spec fn canonical(self) -> Seq<u8> {
        let path = if self.path.len() == 0 {
            seq![47u8]
        } else {
            self.path
        };
        let query = if self.query.len() == 0 {
            Seq::empty()
        } else {
            seq![63u8] + canonical_query(self.query)
        };
        lowered(self.scheme) + seq![58u8, 47u8, 47u8] + lowered(self.authority) + path + query
    }
}

/// The canonical form of a source URL, if it is one.
pub open spec fn canonical_source_spec(url: Seq<u8>) -> Option<Seq<u8>> {
    match parts_of(url) {
        Some(parts) => Some(parts.canonical()),
        None => None,
    }
}

/// Sources whose schemes and authorities differ in case only, whose paths
/// are the same and whose queries hold the same parameters in whatever
/// order have the same canonical form.
pub proof fn lemma_equivalent_sources(a: PartsView, b: PartsView)
    requires
        lowered(a.scheme) == lowered(b.scheme),
        lowered(a.authority) == lowered(b.authority),
        a.path == b.path,
        pieces(a.query).to_multiset() == pieces(b.query).to_multiset(),
        (a.query.len() == 0) == (b.query.len() == 0),
    ensures
        a.canonical() == b.canonical(),
{
    crate::ordering::lemma_sorted_ignores_order(pieces(a.query), pieces(b.query));
}

/// The texts that a vector of vectors holds.
pub open spec fn texts(items: Seq<Vec<u8>>) -> Seq<Seq<u8>> {
    items.map_values(|item: Vec<u8>| item@)
}

/// Whether a text is made of visible ASCII characters only.
pub fn is_visible_text(text: &[u8]) -> (yes: bool)
    ensures
        yes == is_visible(text@),
{
    let mut i: usize = 0;
    while i < text.len()
        invariant
            i <= text.len(),
            forall|j: int| 0 <= j < i ==> 33 <= #[trigger] text@[j] <= 126,
        decreases text.len() - i,
    {
        if text[i] < 33 || text[i] > 126 {
            return false;
        }
        i += 1;
    }
    true
}

/// Whether the first `end` bytes of a text are a scheme.
pub fn is_scheme_prefix(text: &[u8], end: usize) -> (yes: bool)
    requires
        end <= text.len(),
    ensures
        yes == is_scheme(text@.subrange(0, end as int)),
{
    if end == 0 {
        return false;
    }
    let ghost scheme = text@.subrange(0, end as int);
    let mut i: usize = 0;
    while i < end
        invariant
            i <= end <= text.len(),
            scheme == text@.subrange(0, end as int),
            forall|j: int| 0 <= j < i ==> scheme_byte(#[trigger] scheme[j], j == 0),
        decreases end - i,
    {
        let byte = text[i];
        let letter = (65 <= byte && byte <= 90) || (97 <= byte && byte <= 122);
        let other = (48 <= byte && byte <= 57) || byte == 43 || byte == 45 || byte == 46;
        if !(letter || (i != 0 && other)) {
            assert(!scheme_byte(scheme[i as int], i == 0));
            return false;
        }
        i += 1;
    }
    true
}

/// Takes a source URL apart. What is no URL is refused as `InvalidInput`.
pub fn parse_source(url: &[u8]) -> (parsed: Result<SourceParts, TranscodeError>)
    ensures
        parsed is Ok == parts_of(url@) is Some,
        parsed matches Ok(parts) ==> parts@ == parts_of(url@).unwrap(),
        parsed matches Err(e) ==> e == TranscodeError::InvalidInput,
{
    if !is_visible_text(url) {
        return Err(TranscodeError::InvalidInput);
    }
    let colon = find_stop(url, Stop::Colon, 0);
    if url.len() < 3 || colon >= url.len() - 2 {
        return Err(TranscodeError::InvalidInput);
    }
    if url[colon + 1] != 47 || url[colon + 2] != 47 {
        return Err(TranscodeError::InvalidInput);
    }
    if !is_scheme_prefix(url, colon) {
        return Err(TranscodeError::InvalidInput);
    }
    let host = colon + 3;
    let host_end = find_stop(url, Stop::AuthorityEnd, host);
    if host_end == host {
        return Err(TranscodeError::InvalidInput);
    }
    let path_end = find_stop(url, Stop::PathEnd, host_end);
    let query_end = find_stop(url, Stop::Fragment, path_end);
    let query = if path_end < query_end {
        copy_range(url, path_end + 1, query_end)
    } else {
        Vec::new()
    };
    Ok(
        SourceParts {
            scheme: copy_range(url, 0, colon),
            authority: copy_range(url, host, host_end),
            path: copy_range(url, host_end, path_end),
            query,
        },
    )
}

/// A text with its letters in lower case.
pub fn lower(text: &[u8]) -> (result: Vec<u8>)
    ensures
        result@ == lowered(text@),
{
    let mut result: Vec<u8> = Vec::new();
    let mut i: usize = 0;
    while i < text.len()
        invariant
            i <= text.len(),
            result@.len() == i,
            forall|j: int| 0 <= j < i ==> result@[j] == lower_byte(text@[j]),
        decreases text.len() - i,
    {
        let byte = text[i];
        if 65 <= byte && byte <= 90 {
            result.push(byte + 32);
        } else {
            result.push(byte);
        }
        i += 1;
    }
    assert(result@ =~= lowered(text@));
    result
}

/// The parameters of a query.
pub fn split_query(query: &[u8]) -> (items: Vec<Vec<u8>>)
    ensures
        texts(items@) == pieces(query@),
{
    let mut items: Vec<Vec<u8>> = Vec::new();
    let mut current: Vec<u8> = Vec::new();
    let mut i: usize = 0;
    assert(query@.subrange(0, 0) =~= Seq::<u8>::empty());
    assert(texts(items@).push(current@) =~= seq![Seq::<u8>::empty()]);
    while i < query.len()
        invariant
            i <= query.len(),
            texts(items@).push(current@) == pieces(query@.subrange(0, i as int)),
        decreases query.len() - i,
    {
        let ghost before = pieces(query@.subrange(0, i as int));
        assert(query@.subrange(0, i + 1).drop_last() =~= query@.subrange(0, i as int));
        assert(before.last() == current@);
        assert(before.drop_last() =~= texts(items@));
        if query[i] == 38 {
            items.push(current);
            current = Vec::new();
            assert(texts(items@) =~= before);
        } else {
            current.push(query[i]);
        }
        i += 1;
    }
    assert(query@.subrange(0, i as int) =~= query@);
    let ghost all = texts(items@).push(current@);
    items.push(current);
    assert(texts(items@) =~= all);
    items
}

/// Puts parameters in order.
pub fn sort_pieces(items: Vec<Vec<u8>>) -> (ordered: Vec<Vec<u8>>)
    ensures
        texts(ordered@) == sorted(texts(items@)),
{
    broadcast use vstd::seq_lib::group_to_multiset_ensures;
    broadcast use vstd::multiset::group_multiset_axioms;

    let mut rest = items;
    let mut ordered: Vec<Vec<u8>> = Vec::new();
    assert(texts(ordered@) =~= Seq::<Seq<u8>>::empty());
    assert(texts(ordered@).to_multiset().add(texts(rest@).to_multiset()) =~= texts(
        items@,
    ).to_multiset());
    while rest.len() > 0
        invariant
            sorted_by(texts(ordered@), byte_order()),
            texts(ordered@).to_multiset().add(texts(rest@).to_multiset()) == texts(
                items@,
            ).to_multiset(),
        decreases rest.len(),
    {
        let ghost rest_before = texts(rest@);
        let ghost ordered_before = texts(ordered@);
        let item = rest.pop().unwrap();
        assert(texts(rest@) =~= rest_before.drop_last());
        assert(rest_before =~= texts(rest@).push(item@));
        let mut place: usize = 0;
        while place < ordered.len() && comes_first(ordered[place].as_slice(), item.as_slice())
            invariant
                place <= ordered.len(),
                texts(ordered@) == ordered_before,
                forall|j: int| 0 <= j < place ==> precedes(#[trigger] ordered_before[j], item@),
            decreases ordered.len() - place,
        {
            place += 1;
        }
        ordered.insert(place, item);
        assert(texts(ordered@) =~= ordered_before.insert(place as int, item@));
        assert(sorted_by(texts(ordered@), byte_order())) by {
            lemma_byte_order_is_total();
            let order = byte_order();
            let after = texts(ordered@);
            assert forall|i: int, j: int| 0 <= i < j < after.len() implies #[trigger] order(
                after[i],
                after[j],
            ) by {
                if j < place {
                    assert(order(ordered_before[i], ordered_before[j]));
                } else if j == place {
                    assert(precedes(ordered_before[i], item@));
                } else if i < place {
                    assert(order(ordered_before[i], ordered_before[j - 1]));
                } else if i == place {
                    assert(!precedes(ordered_before[place as int], item@));
                    assert(order(ordered_before[place as int], item@) || order(
                        item@,
                        ordered_before[place as int],
                    ));
                    if j - 1 > place {
                        assert(order(ordered_before[place as int], ordered_before[j - 1]));
                    }
                    assert(order(item@, ordered_before[place as int]) && order(
                        ordered_before[place as int],
                        ordered_before[j - 1],
                    ) ==> order(item@, ordered_before[j - 1]));
                } else {
                    assert(order(ordered_before[i - 1], ordered_before[j - 1]));
                }
            }
        }
        proof {
            vstd::seq_lib::to_multiset_build(texts(rest@), item@);
            vstd::seq_lib::to_multiset_insert(ordered_before, place as int, item@);
            assert(rest_before.to_multiset() == texts(rest@).to_multiset().insert(item@));
            assert(texts(ordered@).to_multiset() == ordered_before.to_multiset().insert(item@));
            assert(ordered_before.to_multiset().add(rest_before.to_multiset()) == texts(
                items@,
            ).to_multiset());
        }
        assert(texts(ordered@).to_multiset().add(texts(rest@).to_multiset()) =~= texts(
            items@,
        ).to_multiset());
    }
    assert(texts(rest@) =~= Seq::<Seq<u8>>::empty());
    assert(texts(ordered@).to_multiset() =~= texts(items@).to_multiset());
    proof {
        lemma_is_sorted(texts(items@), texts(ordered@));
    }
    ordered
}

/// Puts parameters together again, with `&` between them.
pub fn join_pieces(items: &Vec<Vec<u8>>) -> (text: Vec<u8>)
    ensures
        text@ == joined(texts(items@)),
{
    let mut text: Vec<u8> = Vec::new();
    let mut i: usize = 0;
    assert(texts(items@).subrange(0, 0) =~= Seq::<Seq<u8>>::empty());
    while i < items.len()
        invariant
            i <= items.len(),
            text@ == joined(texts(items@).subrange(0, i as int)),
        decreases items.len() - i,
    {
        let ghost done = texts(items@).subrange(0, i as int);
        let ghost next = texts(items@).subrange(0, i + 1);
        assert(next.drop_last() =~= done);
        assert(next.last() == items@[i as int]@);
        if i > 0 {
            text.push(38);
            append_bytes(&mut text, items[i].as_slice());
            assert(text@ =~= joined(done) + seq![38u8] + items@[i as int]@);
        } else {
            append_bytes(&mut text, items[i].as_slice());
            assert(text@ =~= items@[i as int]@);
            assert(next[0] == items@[i as int]@);
        }
        i += 1;
    }
    assert(texts(items@).subrange(0, i as int) =~= texts(items@));
    text
}

impl SourceParts {
    /// The canonical form of the source.
    pub fn canonical(&self) -> (text: Vec<u8>)
        ensures
            text@ == self@.canonical(),
    {
        let mut text = lower(self.scheme.as_slice());
        text.push(58);
        text.push(47);
        text.push(47);
        let authority = lower(self.authority.as_slice());
        append_bytes(&mut text, authority.as_slice());
        if self.path.len() == 0 {
            text.push(47);
        } else {
            append_bytes(&mut text, self.path.as_slice());
        }
        if self.query.len() > 0 {
            let ordered = sort_pieces(split_query(self.query.as_slice()));
            let query = join_pieces(&ordered);
            text.push(63);
            append_bytes(&mut text, query.as_slice());
        }
        assert(text@ =~= self@.canonical());
        text
    }
}

/// The canonical form of a source URL. What is no URL is refused as `InvalidInput`.
pub fn canonical_source(url: &[u8]) -> (canonical: Result<Vec<u8>, TranscodeError>)
    ensures
        canonical is Ok == canonical_source_spec(url@) is Some,
        canonical matches Ok(text) ==> text@ == canonical_source_spec(url@).unwrap(),
        canonical matches Err(e) ==> e == TranscodeError::InvalidInput,
{
    match parse_source(url) {
        Ok(parts) => Ok(parts.canonical()),
        Err(error) => Err(error),
    }
}

} // verus!
