//! Logical view over a segmented image.
//!
//! An image is a list of slices whose concatenation is
//! `HEADER || PAYLOAD || SIGNATURE`. On the device the two bands of a flash bank
//! are read through different address aliases, so no contiguous view exists. A
//! segment may be empty, the list may be empty, and any field may straddle a
//! boundary.

use vstd::prelude::*;

use sha2::Sha256;
use vstd::slice::slice_subrange;

use crate::image::crypto::hashed_bytes;
use crate::image::crypto::hasher_finish;
use crate::image::crypto::hasher_new;
use crate::image::crypto::hasher_update;
use crate::image::crypto::sha256;
use crate::image::crypto::MAX_HASHED_LEN;
use crate::image::error::VerifyError;

verus! {

/// The bytes of a segment list, in order.
pub open spec fn concat(segs: Seq<&[u8]>) -> Seq<u8>
    decreases segs.len(),
{
    if segs.len() == 0 {
        Seq::empty()
    } else {
        concat(segs.drop_last()) + segs.last()@
    }
}

/// Segment `i` sits in the concatenation right behind the segments before it.
pub proof fn lemma_segment_at(segs: Seq<&[u8]>, i: int)
    requires
        0 <= i < segs.len(),
    ensures
        concat(segs.take(i + 1)) == concat(segs.take(i)) + segs[i]@,
        concat(segs.take(i)).len() + segs[i]@.len() <= concat(segs).len(),
        forall|k: int|
            0 <= k < segs[i]@.len() ==> #[trigger] segs[i]@[k] == concat(
                segs,
            )[concat(segs.take(i)).len() + k],
    decreases segs.len(),
{
    assert(segs.take(i + 1).drop_last() =~= segs.take(i));
    assert(segs.take(i + 1).last() == segs[i]);
    if i + 1 == segs.len() {
        assert(segs.take(i + 1) =~= segs);
    } else {
        let init = segs.drop_last();
        lemma_segment_at(init, i);
        assert(init.take(i) =~= segs.take(i));
        assert(init[i] == segs[i]);
        assert(concat(segs) == concat(init) + segs.last()@);
    }
}

/// Sums the segment lengths into the total logical image length.
pub fn total_len(segments: &[&[u8]]) -> (r: Result<usize, VerifyError>)
    ensures
        match r {
            Ok(total) => total == concat(segments@).len(),
            Err(e) => e == VerifyError::LengthMismatch && concat(segments@).len() > usize::MAX,
        },
{
    let mut total: usize = 0;
    let mut i: usize = 0;
    while i < segments.len()
        invariant
            i <= segments@.len(),
            total == concat(segments@.take(i as int)).len(),
        decreases segments@.len() - i,
    {
        proof {
            lemma_segment_at(segments@, i as int);
        }
        match total.checked_add(segments[i].len()) {
            Some(sum) => total = sum,
            None => return Err(VerifyError::LengthMismatch),
        }
        i += 1;
    }
    assert(segments@.take(i as int) =~= segments@);
    Ok(total)
}

/// Copies the logical bytes `[start, start + out.len())` into `out`.
///
/// The range may straddle any number of boundaries and may start or end inside a
/// segment. Where the segments hold fewer than `start + out.len()` bytes, nothing is
/// promised of `out`.
pub fn copy_out(segments: &[&[u8]], start: usize, out: &mut [u8]) -> (r: Result<(), VerifyError>)
    ensures
        final(out)@.len() == old(out)@.len(),
        r == (if start + old(out)@.len() <= concat(segments@).len() {
            Ok::<(), VerifyError>(())
        } else {
            Err(VerifyError::TooShort)
        }),
        r is Ok ==> final(out)@ == concat(segments@).subrange(
            start as int,
            start + old(out)@.len(),
        ),
{
    let want: usize = out.len();
    let ghost all = concat(segments@);
    let mut skip: usize = start;
    let mut written: usize = 0;
    let mut i: usize = 0;
    while i < segments.len() && (written < want || skip > 0)
        invariant
            i <= segments@.len(),
            written <= want,
            want == out@.len(),
            out@.len() == old(out)@.len(),
            all == concat(segments@),
            concat(segments@.take(i as int)).len() <= all.len(),
            written == want && skip == 0 ==> start + want <= all.len(),
            written < want || skip > 0 ==> (if written == 0 {
                concat(segments@.take(i as int)).len() + skip == start
            } else {
                skip == 0 && start + written == concat(segments@.take(i as int)).len()
            }),
            written > 0 ==> start + written <= all.len(),
            forall|k: int| 0 <= k < written ==> #[trigger] out@[k] == all[start + k],
        decreases segments@.len() - i,
    {
        let segment: &[u8] = segments[i];
        proof {
            lemma_segment_at(segments@, i as int);
        }
        let ghost pos = concat(segments@.take(i as int)).len() as int;
        if skip >= segment.len() {
            skip -= segment.len();
        } else {
            let room: usize = want - written;
            let avail: usize = segment.len() - skip;
            let take: usize = if room < avail { room } else { avail };
            let base: usize = written;
            let mut k: usize = 0;
            while k < take
                invariant
                    k <= take,
                    skip + take <= segment.len(),
                    base + take <= want,
                    want == out@.len(),
                    out@.len() == old(out)@.len(),
                    pos + segment@.len() <= all.len(),
                    start + base == pos + skip,
                    forall|m: int|
                        0 <= m < segment@.len() ==> #[trigger] segment@[m] == all[pos + m],
                    forall|m: int| 0 <= m < base + k ==> #[trigger] out@[m] == all[start + m],
                decreases take - k,
            {
                let byte: u8 = segment[skip + k];
                out[base + k] = byte;
                k += 1;
            }
            written += take;
            skip = 0;
        }
        i += 1;
    }
    if written != want || skip != 0 {
        assert(segments@.take(i as int) =~= segments@);
        return Err(VerifyError::TooShort);
    }
    Ok(())
}

/// What a sink shows.
pub ghost struct SinkView {
    /// The pieces taken in so far.
    pub pieces: Seq<Seq<u8>>,
    /// How many more bytes it takes.
    pub room: nat,
}

/// Takes in a byte string piece by piece.
pub trait PieceSink {
    /// What the sink shows.
    spec fn sink(&self) -> SinkView;

    /// Takes in one piece.
    fn take(&mut self, piece: &[u8])
        requires
            piece@.len() <= old(self).sink().room,
        ensures
            final(self).sink().pieces == old(self).sink().pieces.push(piece@),
            final(self).sink().room == old(self).sink().room - piece@.len(),
    ;
}

/// A SHA-256 digest under way, over the pieces taken in.
pub struct Digester {
    hasher: Sha256,
    taken: Ghost<Seq<Seq<u8>>>,
}

impl Digester {
    /// The hasher has taken in what the pieces join to, and a digest of it exists.
    #[verifier::type_invariant]
    spec fn holds_pieces(&self) -> bool {
        &&& hashed_bytes(self.hasher) == join(self.taken@)
        &&& join(self.taken@).len() < MAX_HASHED_LEN
    }

    /// A digest that has taken in nothing.
    pub fn new() -> (r: Digester)
        ensures
            r.sink().pieces == Seq::<Seq<u8>>::empty(),
            r.sink().room == MAX_HASHED_LEN - 1,
    {
        Digester { hasher: hasher_new(), taken: Ghost(Seq::empty()) }
    }

    /// The digest of the pieces taken in.
    pub fn finish(self) -> (digest: [u8; 32])
        ensures
            digest@ == sha256(join(self.sink().pieces)),
    {
        proof {
            use_type_invariant(&self);
        }
        hasher_finish(self.hasher)
    }
}

impl PieceSink for Digester {
    closed spec fn sink(&self) -> SinkView {
        SinkView {
            pieces: self.taken@,
            room: (MAX_HASHED_LEN - 1 - join(self.taken@).len()) as nat,
        }
    }

    fn take(&mut self, piece: &[u8]) {
        let ghost before = self.taken@;
        proof {
            use_type_invariant(&*self);
            lemma_join_push(before, piece@);
        }
        let mut whole = Digester::new();
        std::mem::swap(&mut whole, self);
        let mut hasher: Sha256 = whole.hasher;
        hasher_update(&mut hasher, piece);
        *self = Digester { hasher, taken: Ghost(before.push(piece@)) };
    }
}

/// Hands the logical bytes `[0, end)` to the sink, one borrowed piece per segment.
///
/// The last piece is cut at `end`, which may fall inside a segment. Empty segments are
/// stepped over, so the sink never sees an empty piece. Where the segments hold fewer
/// than `end` bytes, all of them have been handed over.
pub fn for_each_prefix_piece<S>(segments: &[&[u8]], end: usize, sink: &mut S) -> (r: Result<
    (),
    VerifyError,
>) where S: PieceSink
    requires
        prefix_of(concat(segments@), end as int).len() <= old(sink).sink().room,
    ensures
        r == (if end <= concat(segments@).len() {
            Ok::<(), VerifyError>(())
        } else {
            Err(VerifyError::LengthMismatch)
        }),
        final(sink).sink().pieces == old(sink).sink().pieces + pieces_from(segments@, 0, 0, end as int),
        join(pieces_from(segments@, 0, 0, end as int)) == prefix_of(
            concat(segments@),
            end as int,
        ),
        forall|i: int|
            0 <= i < pieces_from(segments@, 0, 0, end as int).len() ==> (#[trigger] pieces_from(
                segments@,
                0,
                0,
                end as int,
            )[i]).len() > 0,
        final(sink).sink().room == old(sink).sink().room - prefix_of(concat(segments@), end as int).len(),
{
    let ghost all = concat(segments@);
    let ghost before = sink.sink().pieces;
    let ghost room = sink.sink().room;
    let mut remaining: usize = end;
    let mut i: usize = 0;
    assert(concat(segments@.take(0)) =~= Seq::<u8>::empty());
    assert(before + pieces_from(segments@, 0, 0, end as int) =~= sink.sink().pieces + pieces_from(
        segments@,
        0,
        0,
        end as int,
    ));
    while i < segments.len() && remaining > 0
        invariant
            i <= segments@.len(),
            remaining <= end,
            all == concat(segments@),
            concat(segments@.take(i as int)).len() <= all.len(),
            remaining > 0 ==> end - remaining == concat(segments@.take(i as int)).len(),
            end - remaining <= all.len(),
            sink.sink().room == room - (end - remaining),
            end <= all.len() ==> end <= room,
            end > all.len() ==> all.len() <= room,
            before + pieces_from(segments@, 0, 0, end as int) == sink.sink().pieces + pieces_from(
                segments@,
                i as int,
                0,
                remaining as int,
            ),
        decreases segments@.len() - i,
    {
        let segment: &[u8] = segments[i];
        let ghost taken = sink.sink().pieces;
        proof {
            lemma_segment_at(segments@, i as int);
        }
        if segment.len() > 0 {
            let take: usize = if remaining < segment.len() {
                remaining
            } else {
                segment.len()
            };
            let piece: &[u8] = slice_subrange(segment, 0, take);
            sink.take(piece);
            proof {
                let rest = pieces_from(segments@, i as int, take as int, remaining - take);
                assert(pieces_from(segments@, i as int, 0, remaining as int) == seq![piece@] + rest);
                assert(rest == pieces_from(segments@, i + 1, 0, remaining - take));
                assert(taken + (seq![piece@] + rest) =~= taken.push(piece@) + rest);
            }
            remaining -= take;
        }
        i += 1;
    }
    proof {
        assert(pieces_from(segments@, i as int, 0, remaining as int) =~= Seq::<Seq<u8>>::empty());
        assert(sink.sink().pieces + Seq::<Seq<u8>>::empty() =~= sink.sink().pieces);
        assert(segments@.take(segments@.len() as int) =~= segments@);
        a_prefix_comes_in_pieces(segments@, end as int);
    }
    if remaining != 0 {
        return Err(VerifyError::LengthMismatch);
    }
    Ok(())
}

/// A piece more joins behind the others.
proof fn lemma_join_push(pieces: Seq<Seq<u8>>, piece: Seq<u8>)
    ensures
        join(pieces.push(piece)) == join(pieces) + piece,
    decreases pieces.len(),
{
    if pieces.len() == 0 {
        assert(pieces.push(piece).drop_first() =~= Seq::<Seq<u8>>::empty());
        assert(pieces.push(piece).first() == piece);
        assert(piece + Seq::<u8>::empty() =~= piece);
        assert(Seq::<u8>::empty() + piece =~= piece);
        assert(join(pieces.push(piece).drop_first()) =~= Seq::<u8>::empty());
    } else {
        lemma_join_push(pieces.drop_first(), piece);
        assert(pieces.push(piece).drop_first() =~= pieces.drop_first().push(piece));
        assert(pieces.first() + (join(pieces.drop_first()) + piece) =~= (pieces.first() + join(
            pieces.drop_first(),
        )) + piece);
    }
}

/// A prefix comes in one piece for each segment that holds bytes of it, in the order of
/// the segments. No piece is empty, and the pieces join to the prefix, as far as the
/// segments hold it.
pub proof fn a_prefix_comes_in_pieces(segs: Seq<&[u8]>, end: int)
    requires
        0 <= end,
    ensures
        pieces_from(segs, 0, 0, end) == parts_from(segs, 0, 0, end),
        join(pieces_from(segs, 0, 0, end)) == prefix_of(concat(segs), end),
        forall|i: int|
            0 <= i < pieces_from(segs, 0, 0, end).len() ==> (#[trigger] pieces_from(
                segs,
                0,
                0,
                end,
            )[i]).len() > 0,
{
    one_piece_per_segment_in_order(segs, 0, end);
    if segs.len() > 0 {
        assert(concat(segs.take(0)) =~= Seq::<u8>::empty());
        lemma_pieces_join(segs, 0, 0, end);
        assert(join(pieces_from(segs, 0, 0, end)) =~= prefix_of(concat(segs), end));
    } else {
        assert(prefix_of(concat(segs), end) =~= Seq::<u8>::empty());
    }
}

/// The first `end` bytes, or all of them where there are fewer.
pub open spec fn prefix_of(bytes: Seq<u8>, end: int) -> Seq<u8> {
    if end <= bytes.len() {
        bytes.take(end)
    } else {
        bytes
    }
}

/// The pieces that `remaining` bytes from byte `off` on, counted from segment `seg`,
/// come in: what each segment holds of them, empty pieces left out.
pub open spec fn pieces_from(segs: Seq<&[u8]>, seg: int, off: int, remaining: int) -> Seq<Seq<u8>>
    decreases segs.len() - seg, remaining,
{
    if remaining <= 0 || seg < 0 || seg >= segs.len() || off < 0 {
        Seq::empty()
    } else if off >= segs[seg]@.len() {
        pieces_from(segs, seg + 1, off - segs[seg]@.len(), remaining)
    } else {
        let avail = segs[seg]@.len() - off;
        let take = if avail < remaining {
            avail
        } else {
            remaining
        };
        seq![segs[seg]@.subrange(off, off + take)] + pieces_from(
            segs,
            seg,
            off + take,
            remaining - take,
        )
    }
}

/// The bytes of a list of pieces, in order.
pub open spec fn join(pieces: Seq<Seq<u8>>) -> Seq<u8>
    decreases pieces.len(),
{
    if pieces.len() == 0 {
        Seq::empty()
    } else {
        pieces.first() + join(pieces.drop_first())
    }
}

/// What segment `k` holds of the logical range `[from, to)`.
pub open spec fn part_of(segs: Seq<&[u8]>, k: int, from: int, to: int) -> Seq<u8> {
    let pos = concat(segs.take(k)).len();
    let n = segs[k]@.len() as int;
    let lo = if from <= pos {
        0
    } else if from - pos < n {
        from - pos
    } else {
        n
    };
    let hi = if to - pos <= lo {
        lo
    } else if to - pos < n {
        to - pos
    } else {
        n
    };
    segs[k]@.subrange(lo, hi)
}

/// What the segments from `k` on hold of `[from, to)`, one part a segment, in order.
/// A segment that holds nothing of it has no part.
pub open spec fn parts_from(segs: Seq<&[u8]>, k: int, from: int, to: int) -> Seq<Seq<u8>>
    decreases segs.len() - k,
{
    if k < 0 || k >= segs.len() {
        Seq::empty()
    } else if part_of(segs, k, from, to).len() == 0 {
        parts_from(segs, k + 1, from, to)
    } else {
        seq![part_of(segs, k, from, to)] + parts_from(segs, k + 1, from, to)
    }
}

/// A range comes in one piece for each segment that holds bytes of it, in the order
/// of the segments, and each piece is what its segment holds.
pub proof fn one_piece_per_segment_in_order(segs: Seq<&[u8]>, start: int, len: int)
    requires
        0 <= start,
        0 <= len,
    ensures
        pieces_from(segs, 0, start, len) == parts_from(segs, 0, start, start + len),
{
    assert(concat(segs.take(0)) =~= Seq::<u8>::empty());
    lemma_pieces_are_parts(segs, 0, start, len);
}

/// Where the range starts at or before segment `k`, it does not matter where.
proof fn lemma_parts_start(segs: Seq<&[u8]>, k: int, a: int, b: int, to: int)
    requires
        0 <= k <= segs.len(),
        a <= concat(segs.take(k)).len(),
        b <= concat(segs.take(k)).len(),
    ensures
        parts_from(segs, k, a, to) == parts_from(segs, k, b, to),
    decreases segs.len() - k,
{
    if k < segs.len() {
        lemma_segment_at(segs, k);
        lemma_parts_start(segs, k + 1, a, b, to);
    }
}

/// Segments behind the range hold nothing of it.
proof fn lemma_parts_end(segs: Seq<&[u8]>, k: int, from: int, to: int)
    requires
        0 <= k <= segs.len(),
        to <= from || to <= concat(segs.take(k)).len(),
    ensures
        parts_from(segs, k, from, to) == Seq::<Seq<u8>>::empty(),
    decreases segs.len() - k,
{
    if k < segs.len() {
        lemma_segment_at(segs, k);
        lemma_parts_end(segs, k + 1, from, to);
    }
}

/// The pieces of a range, counted from segment `seg`, are the parts of it.
proof fn lemma_pieces_are_parts(segs: Seq<&[u8]>, seg: int, off: int, remaining: int)
    requires
        0 <= seg <= segs.len(),
        0 <= off,
        0 <= remaining,
    ensures
        ({
            let from = concat(segs.take(seg)).len() + off;
            pieces_from(segs, seg, off, remaining) == parts_from(segs, seg, from, from + remaining)
        }),
    decreases segs.len() - seg,
{
    let pos = concat(segs.take(seg)).len();
    let from = pos + off;
    let to = from + remaining;
    if remaining == 0 {
        lemma_parts_end(segs, seg, from, to);
    } else if seg < segs.len() {
        lemma_segment_at(segs, seg);
        let n = segs[seg]@.len() as int;
        if off >= n {
            lemma_pieces_are_parts(segs, seg + 1, off - n, remaining);
        } else if n - off < remaining {
            let rest = remaining - (n - off);
            assert(pieces_from(segs, seg, n, rest) == pieces_from(segs, seg + 1, 0, rest));
            lemma_pieces_are_parts(segs, seg + 1, 0, rest);
            lemma_parts_start(segs, seg + 1, from, pos + n, to);
        } else {
            assert(pieces_from(segs, seg, off + remaining, 0) == Seq::<Seq<u8>>::empty());
            lemma_parts_end(segs, seg + 1, from, to);
        }
    }
}

/// What the pieces of a cursor join to: the owed bytes, as far as the segments
/// hold them.
pub proof fn lemma_pieces_join(segs: Seq<&[u8]>, seg: int, off: int, remaining: int)
    requires
        0 <= seg < segs.len(),
        0 <= off <= segs[seg]@.len(),
        0 <= remaining,
    ensures
        ({
            let pos = concat(segs.take(seg)).len() + off;
            let end = pos + remaining;
            let all = concat(segs);
            &&& pos <= all.len()
            &&& join(pieces_from(segs, seg, off, remaining)) == all.subrange(
                pos,
                if end < all.len() {
                    end
                } else {
                    all.len() as int
                },
            )
        }),
        forall|i: int|
            0 <= i < pieces_from(segs, seg, off, remaining).len() ==> (#[trigger] pieces_from(
                segs,
                seg,
                off,
                remaining,
            )[i]).len() > 0,
    decreases segs.len() - seg, remaining,
{
    let all = concat(segs);
    let pos = concat(segs.take(seg)).len() + off;
    lemma_segment_at(segs, seg);
    let end = if pos + remaining < all.len() {
        pos + remaining
    } else {
        all.len() as int
    };
    if remaining == 0 {
        assert(all.subrange(pos, end) =~= Seq::empty());
    } else if off >= segs[seg]@.len() {
        if seg + 1 < segs.len() {
            lemma_pieces_join(segs, seg + 1, 0, remaining);
        } else {
            assert(segs.take(seg + 1) =~= segs);
            assert(all.subrange(pos, end) =~= Seq::empty());
            assert(pieces_from(segs, seg + 1, 0, remaining) == Seq::<Seq<u8>>::empty());
        }
    } else {
        let avail = segs[seg]@.len() - off;
        let take = if avail < remaining {
            avail
        } else {
            remaining
        };
        let head = segs[seg]@.subrange(off, off + take);
        let rest = pieces_from(segs, seg, off + take, remaining - take);
        lemma_pieces_join(segs, seg, off + take, remaining - take);
        let whole = pieces_from(segs, seg, off, remaining);
        assert(whole =~= seq![head] + rest);
        assert(whole.first() == head);
        assert(whole.drop_first() =~= rest);
        assert(head =~= all.subrange(pos, pos + take));
        assert(all.subrange(pos, pos + take) + all.subrange(pos + take, end) =~= all.subrange(
            pos,
            end,
        ));
        assert forall|i: int| 0 <= i < whole.len() implies (#[trigger] whole[i]).len() > 0 by {
            if i > 0 {
                assert(whole[i] == rest[i - 1]);
            }
        }
    }
}

/// The verified payload, yielded as borrowed pieces in logical order.
///
/// Joining the yielded slices reproduces the payload exactly. Nothing is copied,
/// and no piece is empty.
#[derive(Debug, Clone, Copy)]
pub struct PayloadSegments<'a> {
    segments: &'a [&'a [u8]],
    // Index of the segment the next piece starts in.
    seg: usize,
    // Byte offset of the next piece inside that segment.
    off: usize,
    // Payload bytes still owed.
    remaining: usize,
}

impl<'a> PayloadSegments<'a> {
    /// The pieces still to come.
    pub closed spec fn pieces(&self) -> Seq<Seq<u8>> {
        pieces_from(self.segments@, self.seg as int, self.off as int, self.remaining as int)
    }

    /// The cursor stands inside its segment.
    #[verifier::type_invariant]
    spec fn inside(&self) -> bool {
        &&& self.seg <= self.segments@.len()
        &&& self.seg < self.segments@.len() ==> self.off <= self.segments@[self.seg as int]@.len()
    }

    /// Builds a cursor over the logical range `[start, start + len)`.
    ///
    /// A range past the end yields nothing more than the segments hold.
    pub fn new(segments: &'a [&'a [u8]], start: usize, len: usize) -> (r: PayloadSegments<'a>)
        ensures
            r.pieces() == pieces_from(segments@, 0, start as int, len as int),
            ({
                let all = concat(segments@);
                &&& start <= all.len() ==> join(r.pieces()) == all.subrange(
                    start as int,
                    if start + len < all.len() {
                        start + len
                    } else {
                        all.len() as int
                    },
                )
                &&& start > all.len() ==> join(r.pieces()) == Seq::<u8>::empty()
                &&& forall|i: int|
                    0 <= i < r.pieces().len() ==> (#[trigger] r.pieces()[i]).len() > 0
            }),
    {
        let mut seg: usize = 0;
        let mut skip: usize = start;
        let ghost all = concat(segments@);
        while seg < segments.len() && skip >= segments[seg].len()
            invariant
                seg <= segments@.len(),
                concat(segments@.take(seg as int)).len() + skip == start,
                pieces_from(segments@, 0, start as int, len as int) == pieces_from(
                    segments@,
                    seg as int,
                    skip as int,
                    len as int,
                ),
            decreases segments@.len() - seg,
        {
            proof {
                lemma_segment_at(segments@, seg as int);
            }
            skip -= segments[seg].len();
            seg += 1;
        }
        let r = PayloadSegments { segments, seg, off: skip, remaining: len };
        proof {
            if seg < segments@.len() {
                lemma_pieces_join(segments@, seg as int, skip as int, len as int);
            } else {
                assert(segments@.take(seg as int) =~= segments@);
                assert(all.subrange(all.len() as int, all.len() as int) =~= Seq::empty());
            }
        }
        r
    }

    /// Yields the next piece, or `None` once the payload is exhausted.
    pub fn next(&mut self) -> (r: Option<&'a [u8]>)
        ensures
            match r {
                Some(piece) => old(self).pieces() == seq![piece@] + final(self).pieces(),
                None => old(self).pieces().len() == 0 && final(self).pieces().len() == 0,
            },
    {
        proof {
            use_type_invariant(&*self);
        }
        while self.remaining > 0
            invariant
                self.inside(),
                self.pieces() == old(self).pieces(),
            decreases self.segments@.len() - self.seg,
        {
            if self.seg >= self.segments.len() {
                return None;
            }
            let segment: &'a [u8] = self.segments[self.seg];
            if self.off >= segment.len() {
                self.off = 0;
                self.seg += 1;
            } else {
                let available: usize = segment.len() - self.off;
                let take: usize = if available < self.remaining {
                    available
                } else {
                    self.remaining
                };
                let piece: &'a [u8] = slice_subrange(segment, self.off, self.off + take);
                self.off += take;
                self.remaining -= take;
                return Some(piece);
            }
        }
        None
    }
}

/// Four segments concatenate to their four parts.
pub proof fn lemma_concat_four(segs: Seq<&[u8]>)
    requires
        segs.len() == 4,
    ensures
        concat(segs) == segs[0]@ + segs[1]@ + segs[2]@ + segs[3]@,
{
    reveal_with_fuel(concat, 5);
    let a = segs.drop_last();
    let b = a.drop_last();
    let c = b.drop_last();
    assert(a.last() == segs[2] && b.last() == segs[1] && c.last() == segs[0]);
    assert(concat(c.drop_last()) + segs[0]@ =~= segs[0]@);
}

} // verus!
