//! JPEGs out of a byte stream.
//!
//! Scans for start of image (`FF D8`) .. end of image (`FF D9`) and cuts out each complete
//! JPEG. What stands between them, such as the headers of a multipart stream, is skipped.
use vstd::prelude::*;

verus! {

/// An incomplete JPEG longer than this is dropped, so that memory stays bounded if no end
/// ever comes.
pub const MAX_ACC: usize = 4 * 1024 * 1024;

/// Start of image.
pub const SOI: [u8; 2] = [0xFF, 0xD8];

/// End of image.
pub const EOI: [u8; 2] = [0xFF, 0xD9];

/// The two bytes stand at position `i`.
pub open spec fn stands_at(hay: Seq<u8>, needle: [u8; 2], i: int) -> bool {
    0 <= i && i + 1 < hay.len() && hay[i] == needle[0] && hay[i + 1] == needle[1]
}

/// The first position at or after `from` where the two bytes stand.
pub open spec fn position(hay: Seq<u8>, needle: [u8; 2], from: int) -> Option<int>
    decreases hay.len() - from,
{
    if from + 1 >= hay.len() {
        None
    } else if stands_at(hay, needle, from) {
        Some(from)
    } else {
        position(hay, needle, from + 1)
    }
}

/// Where the two bytes first stand at or after `from`.
pub fn find(hay: &[u8], needle: [u8; 2], from: usize) -> (r: Option<usize>)
    ensures
        (match r {
            Some(i) => Some(i as int),
            None => None,
        }) == position(hay@, needle, from as int),
{
    let mut i: usize = from;
    while i < hay.len() && i + 1 < hay.len()
        invariant
            position(hay@, needle, from as int) == position(hay@, needle, i as int),
        decreases hay.len() - i,
    {
        if hay[i] == needle[0] && hay[i + 1] == needle[1] {
            return Some(i);
        }
        i += 1;
    }
    None
}

/// The JPEGs that are complete in `acc`, in order.
pub open spec fn complete(acc: Seq<u8>) -> Seq<Seq<u8>>
    decreases acc.len(),
{
    match next_jpeg(acc) {
        Some((soi, end)) if 0 < end <= acc.len() => seq![acc.subrange(soi, end)] + complete(
            acc.skip(end),
        ),
        _ => Seq::empty(),
    }
}

/// Where the first complete JPEG starts and ends.
pub open spec fn next_jpeg(acc: Seq<u8>) -> Option<(int, int)> {
    match position(acc, SOI, 0) {
        Some(soi) => match position(acc, EOI, soi + 2) {
            Some(eoi) => Some((soi, eoi + 2)),
            None => None,
        },
        None => None,
    }
}

/// What is left after the complete JPEGs: from where the next one starts, or the last byte,
/// which may be half of a start.
pub open spec fn pending(acc: Seq<u8>) -> Seq<u8>
    decreases acc.len(),
{
    match next_jpeg(acc) {
        Some((soi, end)) if 0 < end <= acc.len() => pending(acc.skip(end)),
        _ => match position(acc, SOI, 0) {
            Some(soi) => acc.skip(soi),
            None => if acc.len() > 1 {
                acc.skip(acc.len() - 1)
            } else {
                acc
            },
        },
    }
}

/// `rest`, unless it has grown too long.
pub open spec fn bounded(rest: Seq<u8>) -> Seq<u8> {
    if rest.len() > MAX_ACC {
        Seq::empty()
    } else {
        rest
    }
}

proof fn lemma_position(hay: Seq<u8>, needle: [u8; 2], from: int)
    requires
        0 <= from,
    ensures
        match position(hay, needle, from) {
            Some(i) => {
                &&& from <= i
                &&& stands_at(hay, needle, i)
                &&& forall|j: int| from <= j < i ==> !stands_at(hay, needle, j)
            },
            None => forall|j: int| from <= j ==> !stands_at(hay, needle, j),
        },
    decreases hay.len() - from,
{
    if from + 1 < hay.len() && !stands_at(hay, needle, from) {
        lemma_position(hay, needle, from + 1);
    }
}

/// JPEGs by their bytes.
pub open spec fn images(v: Seq<Vec<u8>>) -> Seq<Seq<u8>> {
    v.map_values(|j: Vec<u8>| j@)
}

/// Cut all complete JPEGs out of `acc`, leaving the remainder for the next read.
pub fn extract_jpegs(acc: &mut Vec<u8>) -> (out: Vec<Vec<u8>>)
    ensures
        images(out@) == complete(old(acc)@),
        final(acc)@ == bounded(pending(old(acc)@)),
{
    let mut out: Vec<Vec<u8>> = Vec::new();
    let mut base: usize = 0;
    let ghost whole = acc@;
    assert(whole.skip(0) =~= whole);
    assert(images(out@) =~= Seq::<Seq<u8>>::empty());
    assert(images(out@) + complete(whole) =~= complete(whole));
    loop
        invariant
            acc@ == whole,
            whole == old(acc)@,
            base <= whole.len(),
            images(out@) + complete(whole.skip(base as int)) == complete(whole),
            pending(whole.skip(base as int)) == pending(whole),
        decreases whole.len() - base,
    {
        let n: usize = acc.len();
        let ghost rest = whole.skip(base as int);
        assert(acc@.subrange(base as int, n as int) =~= rest);
        let part: &[u8] = &acc[base..n];
        proof {
            lemma_position(rest, SOI, 0);
        }
        match find(part, SOI, 0) {
            None => {
                // keep a trailing split start
                let keep: usize = if part.len() > 1 {
                    n - 1
                } else {
                    base
                };
                assert(complete(rest) =~= Seq::<Seq<u8>>::empty());
                assert(acc@.subrange(keep as int, n as int) =~= pending(whole));
                assert(images(out@) =~= complete(whole));
                let left: Vec<u8> = vstd::slice::slice_to_vec(&acc[keep..n]);
                *acc = left;
                return out;
            },
            Some(soi) => {
                proof {
                    lemma_position(rest, EOI, soi + 2);
                }
                match find(part, EOI, soi + 2) {
                    None => {
                        assert(complete(rest) =~= Seq::<Seq<u8>>::empty());
                        assert(acc@.subrange(base + soi, n as int) =~= pending(whole));
                        assert(images(out@) =~= complete(whole));
                        let left: Vec<u8> = vstd::slice::slice_to_vec(&acc[base + soi..n]);
                        if left.len() > MAX_ACC {
                            acc.clear();
                        } else {
                            *acc = left;
                        }
                        return out;
                    },
                    Some(eoi) => {
                        let jpeg: Vec<u8> = vstd::slice::slice_to_vec(&part[soi..eoi + 2]);
                        let ghost before = images(out@);
                        out.push(jpeg);
                        base = base + eoi + 2;
                        proof {
                            assert(images(out@) =~= before.push(jpeg@));
                            assert(rest.skip(eoi + 2) =~= whole.skip(base as int));
                            assert(complete(rest) == seq![jpeg@] + complete(
                                whole.skip(base as int),
                            ));
                            assert(images(out@) + complete(whole.skip(base as int)) =~= before
                                + complete(rest));
                        }
                    },
                }
            },
        }
    }
}

// ---------------------------------------------------------------------------------------
// What holds of every stream
// ---------------------------------------------------------------------------------------
proof fn lemma_position_is(hay: Seq<u8>, needle: [u8; 2], from: int, i: int)
    requires
        0 <= from <= i,
        stands_at(hay, needle, i),
        forall|j: int| from <= j < i ==> !stands_at(hay, needle, j),
    ensures
        position(hay, needle, from) == Some(i),
{
    lemma_position(hay, needle, from);
}

/// What does not start a JPEG before position `k` may as well not be there.
proof fn lemma_junk_is_skipped(acc: Seq<u8>, k: int)
    requires
        0 <= k < acc.len(),
        forall|j: int| 0 <= j < k ==> !stands_at(acc, SOI, j),
    ensures
        complete(acc) == complete(acc.skip(k)),
        pending(acc) == pending(acc.skip(k)),
{
    let rest = acc.skip(k);
    assert forall|needle: [u8; 2], j: int| 0 <= j implies stands_at(rest, needle, j) == stands_at(
        acc,
        needle,
        j + k,
    ) by {}
    lemma_position(acc, SOI, 0);
    lemma_position(rest, SOI, 0);
    match position(acc, SOI, 0) {
        Some(soi) => {
            assert(soi >= k);
            assert(stands_at(rest, SOI, soi - k));
            lemma_position_is(rest, SOI, 0, soi - k);
            assert(rest.skip(soi - k) =~= acc.skip(soi));
            lemma_position(acc, EOI, soi + 2);
            lemma_position(rest, EOI, soi - k + 2);
            match position(acc, EOI, soi + 2) {
                Some(eoi) => {
                    assert(stands_at(rest, EOI, eoi - k));
                    lemma_position_is(rest, EOI, soi - k + 2, eoi - k);
                    assert(rest.skip(eoi - k + 2) =~= acc.skip(eoi + 2));
                    assert(rest.subrange(soi - k, eoi - k + 2) =~= acc.subrange(soi, eoi + 2));
                },
                None => {
                    if let Some(eoi) = position(rest, EOI, soi - k + 2) {
                        assert(stands_at(acc, EOI, eoi + k));
                    }
                },
            }
        },
        None => {
            if let Some(soi) = position(rest, SOI, 0) {
                assert(stands_at(acc, SOI, soi + k));
            }
            assert(rest.len() > 1 ==> rest.skip(rest.len() - 1) =~= acc.skip(acc.len() - 1));
            assert(rest.len() == 1 ==> rest =~= acc.skip(acc.len() - 1));
            assert(acc.len() == 1 ==> rest =~= acc);
        },
    }
}

/// It does not matter how a stream is cut into pieces, as long as no incomplete JPEG has grown
/// too long: what is cut out of `a`, and then of its remainder with `b`, is what is cut out of
/// both at once.
pub proof fn law_stream_may_come_in_pieces(a: Seq<u8>, b: Seq<u8>)
    requires
        pending(a).len() <= MAX_ACC,
    ensures
        complete(a + b) == complete(a) + complete(bounded(pending(a)) + b),
        bounded(pending(a + b)) == bounded(pending(bounded(pending(a)) + b)),
    decreases a.len(),
{
    let all = a + b;
    assert forall|needle: [u8; 2], j: int| j + 1 < a.len() implies stands_at(all, needle, j)
        == stands_at(a, needle, j) by {}
    lemma_position(a, SOI, 0);
    match position(a, SOI, 0) {
        Some(soi) => {
            assert(stands_at(all, SOI, soi));
            lemma_position_is(all, SOI, 0, soi);
            lemma_position(a, EOI, soi + 2);
            match position(a, EOI, soi + 2) {
                Some(eoi) => {
                    let end = eoi + 2;
                    assert(stands_at(all, EOI, eoi));
                    lemma_position_is(all, EOI, soi + 2, eoi);
                    assert(all.skip(end) =~= a.skip(end) + b);
                    assert(all.subrange(soi, end) =~= a.subrange(soi, end));
                    law_stream_may_come_in_pieces(a.skip(end), b);
                    assert(complete(all) =~= complete(a) + complete(bounded(pending(a)) + b));
                },
                None => {
                    assert(all.skip(soi) =~= a.skip(soi) + b);
                    lemma_junk_is_skipped(all, soi);
                    assert(complete(all) =~= complete(a) + complete(bounded(pending(a)) + b));
                },
            }
        },
        None => {
            if a.len() > 1 {
                let k = a.len() - 1;
                assert(all.skip(k) =~= a.skip(k) + b);
                lemma_junk_is_skipped(all, k);
            }
            assert(complete(all) =~= complete(a) + complete(bounded(pending(a)) + b));
        },
    }
}

/// Every JPEG that is cut out starts with a start of image and ends with the first end of
/// image after it.
pub proof fn law_jpegs_are_delimited(acc: Seq<u8>, k: int)
    requires
        0 <= k < complete(acc).len(),
    ensures
        ({
            let j = complete(acc)[k];
            &&& j.len() >= 4
            &&& stands_at(j, SOI, 0)
            &&& stands_at(j, EOI, j.len() - 2)
            &&& forall|i: int| 2 <= i < j.len() - 2 ==> !stands_at(j, EOI, i)
        }),
    decreases acc.len(),
{
    lemma_position(acc, SOI, 0);
    if let Some(soi) = position(acc, SOI, 0) {
        lemma_position(acc, EOI, soi + 2);
        if let Some(eoi) = position(acc, EOI, soi + 2) {
            if k > 0 {
                law_jpegs_are_delimited(acc.skip(eoi + 2), k - 1);
            } else {
                let j = acc.subrange(soi, eoi + 2);
                assert forall|i: int| 2 <= i < j.len() - 2 implies !stands_at(j, EOI, i) by {
                    assert(!stands_at(acc, EOI, soi + i));
                }
            }
        }
    }
}

/// A JPEG behind bytes that hold no `FF`, such as the headers of a multipart stream, is cut
/// out whole, and nothing is left.
pub proof fn law_jpeg_behind_headers_is_found(headers: Seq<u8>, j: Seq<u8>)
    requires
        !headers.contains(0xFF),
        j.len() >= 4,
        stands_at(j, SOI, 0),
        stands_at(j, EOI, j.len() - 2),
        forall|i: int| 2 <= i < j.len() - 2 ==> !stands_at(j, EOI, i),
    ensures
        complete(headers + j) == seq![j],
        pending(headers + j) == Seq::<u8>::empty(),
{
    let acc = headers + j;
    let h = headers.len() as int;
    assert forall|i: int| 0 <= i < h implies !stands_at(acc, SOI, i) by {
        assert(acc[i] == headers[i]);
    }
    assert(stands_at(acc, SOI, h));
    lemma_position_is(acc, SOI, 0, h);
    assert forall|i: int| h + 2 <= i < acc.len() - 2 implies !stands_at(acc, EOI, i) by {
        assert(!stands_at(j, EOI, i - h));
    }
    assert(stands_at(acc, EOI, acc.len() - 2));
    lemma_position_is(acc, EOI, h + 2, acc.len() - 2);
    let rest = acc.skip(acc.len() as int);
    assert(rest =~= Seq::<u8>::empty());
    assert(acc.subrange(h, acc.len() as int) =~= j);
    assert(complete(rest) =~= Seq::<Seq<u8>>::empty());
    assert(pending(rest) =~= Seq::<u8>::empty());
    assert(complete(acc) =~= seq![j]);
}

/// The search finds the first place at or after `from` where the two bytes stand next to each
/// other, and fails only where there is none.
pub proof fn law_search_finds_the_first(hay: Seq<u8>, needle: [u8; 2], from: int)
    requires
        0 <= from,
    ensures
        match position(hay, needle, from) {
            Some(i) => {
                &&& from <= i < hay.len() - 1
                &&& hay[i] == needle[0] && hay[i + 1] == needle[1]
                &&& forall|j: int|
                    from <= j < i ==> #[trigger] hay[j] != needle[0] || hay[j + 1] != needle[1]
            },
            None => forall|j: int|
                from <= j < hay.len() - 1 ==> #[trigger] hay[j] != needle[0] || hay[j + 1]
                    != needle[1],
        },
{
    lemma_position(hay, needle, from);
    match position(hay, needle, from) {
        Some(i) => {
            assert forall|j: int| from <= j < i implies #[trigger] hay[j] != needle[0] || hay[j + 1]
                != needle[1] by {
                assert(!stands_at(hay, needle, j));
            }
        },
        None => {
            assert forall|j: int| from <= j < hay.len() - 1 implies #[trigger] hay[j] != needle[0]
                || hay[j + 1] != needle[1] by {
                assert(!stands_at(hay, needle, j));
            }
        },
    }
}

/// The first `FF D8`, and the first `FF D9` behind it, delimit the first JPEG. It is cut out with
/// its delimiters, and the search goes on right behind it.
pub proof fn law_first_jpeg_is_cut_out(acc: Seq<u8>, start: int, end: int)
    requires
        0 <= start,
        start + 2 <= end < acc.len() - 1,
        acc[start] == 0xff && acc[start + 1] == 0xd8,
        acc[end] == 0xff && acc[end + 1] == 0xd9,
        forall|j: int| 0 <= j < start ==> #[trigger] acc[j] != 0xff || acc[j + 1] != 0xd8,
        forall|j: int| start + 2 <= j < end ==> #[trigger] acc[j] != 0xff || acc[j + 1] != 0xd9,
    ensures
        complete(acc) == seq![acc.subrange(start, end + 2)] + complete(acc.skip(end + 2)),
        pending(acc) == pending(acc.skip(end + 2)),
{
    assert(stands_at(acc, SOI, start));
    assert forall|j: int| 0 <= j < start implies !stands_at(acc, SOI, j) by {
        assert(acc[j] != 0xff || acc[j + 1] != 0xd8);
    }
    lemma_position_is(acc, SOI, 0, start);
    assert(stands_at(acc, EOI, end));
    assert forall|j: int| start + 2 <= j < end implies !stands_at(acc, EOI, j) by {
        assert(acc[j] != 0xff || acc[j + 1] != 0xd9);
    }
    lemma_position_is(acc, EOI, start + 2, end);
}

/// Without an `FF D9` behind the first `FF D8` nothing is cut out, and what was read from the
/// `FF D8` on is kept.
pub proof fn law_incomplete_jpeg_is_kept(acc: Seq<u8>, start: int)
    requires
        0 <= start < acc.len() - 1,
        acc[start] == 0xff && acc[start + 1] == 0xd8,
        forall|j: int| 0 <= j < start ==> #[trigger] acc[j] != 0xff || acc[j + 1] != 0xd8,
        forall|j: int|
            start + 2 <= j < acc.len() - 1 ==> #[trigger] acc[j] != 0xff || acc[j + 1] != 0xd9,
    ensures
        complete(acc) == Seq::<Seq<u8>>::empty(),
        pending(acc) == acc.skip(start),
{
    assert(stands_at(acc, SOI, start));
    assert forall|j: int| 0 <= j < start implies !stands_at(acc, SOI, j) by {
        assert(acc[j] != 0xff || acc[j + 1] != 0xd8);
    }
    lemma_position_is(acc, SOI, 0, start);
    lemma_position(acc, EOI, start + 2);
    if let Some(e) = position(acc, EOI, start + 2) {
        assert(acc[e] == 0xff && acc[e + 1] == 0xd9);
    }
}

/// Without an `FF D8` nothing is cut out, and all but the last byte is let go.
pub proof fn law_bytes_before_a_jpeg_are_let_go(acc: Seq<u8>)
    requires
        forall|j: int| 0 <= j < acc.len() - 1 ==> #[trigger] acc[j] != 0xff || acc[j + 1] != 0xd8,
    ensures
        complete(acc) == Seq::<Seq<u8>>::empty(),
        acc.len() == 0 ==> pending(acc) == acc,
        acc.len() > 0 ==> pending(acc) == seq![acc.last()],
{
    lemma_position(acc, SOI, 0);
    if let Some(s) = position(acc, SOI, 0) {
        assert(acc[s] == 0xff && acc[s + 1] == 0xd8);
    }
    if acc.len() > 0 {
        assert(pending(acc) =~= seq![acc.last()]);
    }
}

/// What is kept is kept whole, up to 4 MiB; beyond that all of it is dropped.
pub proof fn law_no_more_than_4_mib_is_kept(rest: Seq<u8>)
    ensures
        rest.len() <= 4_194_304 ==> bounded(rest) == rest,
        rest.len() > 4_194_304 ==> bounded(rest) == Seq::<u8>::empty(),
{
}

/// What a cut leaves and gives is what the laws on `complete`, `pending` and `bounded` speak of.
pub proof fn law_extract_cuts_every_jpeg(hay: &[u8], needle: [u8; 2], from: usize)
    ensures
        forall|acc: &mut Vec<u8>, out: Vec<Vec<u8>>| #[trigger]
            call_ensures(extract_jpegs, (acc,), out) ==> {
                &&& out@.len() == complete(acc@).len()
                &&& forall|i: int|
                    0 <= i < out@.len() ==> (#[trigger] out@[i])@ == complete(acc@)[i]
                &&& pending(acc@).len() <= 4_194_304 ==> final(acc)@ == pending(acc@)
                &&& pending(acc@).len() > 4_194_304 ==> final(acc)@.len() == 0
            },
        forall|r: Option<usize>| #[trigger]
            call_ensures(find, (hay, needle, from), r) ==> match r {
                Some(i) => {
                    &&& from <= i < hay@.len() - 1
                    &&& hay@[i as int] == needle[0] && hay@[i + 1] == needle[1]
                    &&& forall|j: int|
                        from <= j < i ==> #[trigger] hay@[j] != needle[0] || hay@[j + 1]
                            != needle[1]
                },
                None => forall|j: int|
                    from <= j < hay@.len() - 1 ==> #[trigger] hay@[j] != needle[0] || hay@[j + 1]
                        != needle[1],
            },
{
    assert forall|acc: &mut Vec<u8>, out: Vec<Vec<u8>>| #[trigger]
        call_ensures(extract_jpegs, (acc,), out) implies {
        &&& out@.len() == complete(acc@).len()
        &&& forall|i: int| 0 <= i < out@.len() ==> (#[trigger] out@[i])@ == complete(acc@)[i]
    } by {
        assert forall|i: int| 0 <= i < out@.len() implies (#[trigger] out@[i])@ == complete(
            acc@,
        )[i] by {
            assert(images(out@)[i] == out@[i]@);
        }
    }
    law_search_finds_the_first(hay@, needle, from as int);
}

} // verus!
