//! Byte encodings of the files of a collection: length-prefixed frames,
//! packed words, optional identifiers, and the content hash.
//!
//! Every encoding comes with its decoding and with the proof that decoding
//! what was encoded gives back what went in.

use vstd::prelude::*;
use vstd::bytes::{
    lemma_auto_spec_u32_to_from_le_bytes,
    lemma_auto_spec_u64_to_from_le_bytes,
    spec_u32_from_le_bytes,
    spec_u32_to_le_bytes,
    spec_u64_from_le_bytes,
    spec_u64_to_le_bytes,
    u32_from_le_bytes,
    u32_to_le_bytes,
    u64_from_le_bytes,
    u64_to_le_bytes,
};
use vstd::slice::slice_subrange;
use vstd::utf8::{
    decode_utf8,
    encode_utf8,
    valid_utf8,
    encode_utf8_decode_utf8,
    encode_utf8_valid_utf8,
};
use crate::text::string_from_utf8;

verus! {

/// One frame: the length of the content as 8 little-endian bytes, then the
/// content.
pub open spec fn enc_frame(f: Seq<u8>) -> Seq<u8> {
    spec_u64_to_le_bytes(f.len() as u64) + f
}

/// The frames one after the other.
pub open spec fn enc_frames(fs: Seq<Seq<u8>>) -> Seq<u8>
    decreases fs.len(),
{
    if fs.len() == 0 {
        Seq::empty()
    } else {
        enc_frame(fs[0]) + enc_frames(fs.drop_first())
    }
}

/// The frames that `b` is made of, or nothing where `b` ends within a
/// length or within a content.
pub open spec fn dec_frames(b: Seq<u8>) -> Option<Seq<Seq<u8>>>
    decreases b.len(),
{
    if b.len() == 0 {
        Some(Seq::empty())
    } else if b.len() < 8 {
        None
    } else {
        let n = spec_u64_from_le_bytes(b.take(8)) as int;
        if b.len() - 8 < n {
            None
        } else {
            match dec_frames(b.skip(8 + n)) {
                Some(r) => Some(seq![b.subrange(8, 8 + n)] + r),
                None => None,
            }
        }
    }
}

/// Every frame is short enough for its length to be written.
pub open spec fn frames_fit(fs: Seq<Seq<u8>>) -> bool {
    forall|i: int| 0 <= i < fs.len() ==> (#[trigger] fs[i]).len() <= u64::MAX
}

/// Encoding frame after frame is encoding the list.
pub proof fn lemma_enc_frames_push(fs: Seq<Seq<u8>>, f: Seq<u8>)
    ensures
        enc_frames(fs.push(f)) == enc_frames(fs) + enc_frame(f),
    decreases fs.len(),
{
    if fs.len() == 0 {
        assert(fs.push(f).drop_first() =~= Seq::<Seq<u8>>::empty());
        assert(enc_frames(fs.push(f).drop_first()) =~= Seq::<u8>::empty());
        assert(fs.push(f)[0] == f);
        assert(enc_frames(fs.push(f)) =~= enc_frame(f));
        assert(enc_frames(fs) + enc_frame(f) =~= enc_frame(f));
    } else {
        assert(fs.push(f).drop_first() =~= fs.drop_first().push(f));
        lemma_enc_frames_push(fs.drop_first(), f);
        assert(enc_frames(fs.push(f)) =~= enc_frames(fs) + enc_frame(f));
    }
}

/// Decoding encoded frames gives the frames back.
pub proof fn law_frames_round_trip(fs: Seq<Seq<u8>>)
    requires
        frames_fit(fs),
    ensures
        dec_frames(enc_frames(fs)) == Some(fs),
    decreases fs.len(),
{
    lemma_auto_spec_u64_to_from_le_bytes();
    if fs.len() > 0 {
        let f = fs[0];
        let rest = fs.drop_first();
        let b = enc_frames(fs);
        let head = spec_u64_to_le_bytes(f.len() as u64);
        assert(frames_fit(rest)) by {
            assert forall|i: int| 0 <= i < rest.len() implies (#[trigger] rest[i]).len() <= u64::MAX by {
                assert(rest[i] == fs[i + 1]);
            }
        }
        law_frames_round_trip(rest);
        assert(b.take(8) =~= head);
        assert(b.subrange(8, 8 + f.len() as int) =~= f);
        assert(b.skip(8 + f.len() as int) =~= enc_frames(rest));
        assert(seq![f] + rest =~= fs);
    }
}

/// Writes the frames one after the other.
pub fn encode_frames(fs: &Vec<Vec<u8>>) -> (out: Vec<u8>)
    ensures
        out@ == enc_frames(fs@.map_values(|f: Vec<u8>| f@)),
{
    let ghost all = fs@.map_values(|f: Vec<u8>| f@);
    let mut out: Vec<u8> = Vec::new();
    let mut i: usize = 0;
    assert(all.take(0) =~= Seq::<Seq<u8>>::empty());
    while i < fs.len()
        invariant
            i <= fs.len(),
            all == fs@.map_values(|f: Vec<u8>| f@),
            out@ == enc_frames(all.take(i as int)),
        decreases fs.len() - i,
    {
        proof {
            assert(all.take(i as int + 1) =~= all.take(i as int).push(fs@[i as int]@));
            lemma_enc_frames_push(all.take(i as int), fs@[i as int]@);
        }
        let ghost before = out@;
        let mut head = u64_to_le_bytes(fs[i].len() as u64);
        out.append(&mut head);
        let mut j: usize = 0;
        while j < fs[i].len()
            invariant
                i < fs.len(),
                j <= fs@[i as int]@.len(),
                out@ == before + spec_u64_to_le_bytes(fs@[i as int]@.len() as u64) + fs@[i as int]@.take(
                    j as int,
                ),
            decreases fs@[i as int]@.len() - j,
        {
            out.push(fs[i][j]);
            j += 1;
            assert(out@ =~= before + spec_u64_to_le_bytes(fs@[i as int]@.len() as u64) + fs@[i as int]@.take(
                j as int,
            ));
        }
        assert(fs@[i as int]@.take(j as int) =~= fs@[i as int]@);
        assert(out@ =~= before + enc_frame(fs@[i as int]@));
        i += 1;
    }
    assert(all.take(i as int) =~= all);
    out
}

/// `acc` in front of what may follow.
pub open spec fn prepend(acc: Seq<Seq<u8>>, rest: Option<Seq<Seq<u8>>>) -> Option<Seq<Seq<u8>>> {
    match rest {
        Some(r) => Some(acc + r),
        None => None,
    }
}

/// Reads the frames of `b`; `None` where `b` is cut short.
pub fn decode_frames(b: &[u8]) -> (r: Option<Vec<Vec<u8>>>)
    ensures
        r is Some <==> dec_frames(b@) is Some,
        r is Some ==> r->Some_0@.map_values(|f: Vec<u8>| f@) == dec_frames(b@)->Some_0,
{
    let mut out: Vec<Vec<u8>> = Vec::new();
    let mut pos: usize = 0;
    assert(b@.skip(0) =~= b@);
    assert(Seq::<Seq<u8>>::empty() + dec_frames(b@)->Some_0 =~= dec_frames(b@)->Some_0);
    while pos < b.len()
        invariant
            pos <= b.len(),
            dec_frames(b@) == prepend(out@.map_values(|f: Vec<u8>| f@), dec_frames(b@.skip(pos as int))),
        decreases b.len() - pos,
    {
        let ghost rest = b@.skip(pos as int);
        let ghost acc = out@.map_values(|f: Vec<u8>| f@);
        if b.len() - pos < 8 {
            return None;
        }
        let head = slice_subrange(b, pos, pos + 8);
        assert(head@ =~= rest.take(8));
        let n64 = u64_from_le_bytes(head);
        if n64 > (b.len() - pos - 8) as u64 {
            return None;
        }
        let n = n64 as usize;
        let body = slice_subrange(b, pos + 8, pos + 8 + n);
        assert(body@ =~= rest.subrange(8, 8 + n));
        let mut frame: Vec<u8> = Vec::new();
        let mut j: usize = 0;
        while j < n
            invariant
                j <= n,
                n == body@.len(),
                frame@ == body@.take(j as int),
            decreases n - j,
        {
            frame.push(body[j]);
            j += 1;
            assert(frame@ =~= body@.take(j as int));
        }
        assert(body@.take(n as int) =~= body@);
        out.push(frame);
        proof {
            let tail = rest.skip(8 + n);
            assert(tail =~= b@.skip(pos + 8 + n));
            let acc2 = out@.map_values(|f: Vec<u8>| f@);
            assert(acc2 =~= acc.push(body@));
            match dec_frames(tail) {
                Some(r) => {
                    assert(acc + (seq![body@] + r) =~= acc2 + r);
                },
                None => {},
            }
        }
        pos = pos + 8 + n;
    }
    proof {
        assert(b@.skip(pos as int) =~= Seq::<u8>::empty());
        assert(out@.map_values(|f: Vec<u8>| f@) + Seq::<Seq<u8>>::empty() =~= out@.map_values(
            |f: Vec<u8>| f@,
        ));
    }
    Some(out)
}

/// The words as 4 little-endian bytes each.
pub open spec fn enc_words(ws: Seq<u32>) -> Seq<u8>
    decreases ws.len(),
{
    if ws.len() == 0 {
        Seq::empty()
    } else {
        spec_u32_to_le_bytes(ws[0]) + enc_words(ws.drop_first())
    }
}

/// The first `count` words of `b`.
pub open spec fn dec_words(b: Seq<u8>, count: nat) -> Seq<u32>
    decreases count,
{
    if count == 0 || b.len() < 4 {
        Seq::empty()
    } else {
        seq![spec_u32_from_le_bytes(b.take(4))] + dec_words(b.skip(4), (count - 1) as nat)
    }
}

/// From bytes enough for them, `count` words are decoded.
pub proof fn lemma_dec_words_len(b: Seq<u8>, count: nat)
    requires
        b.len() >= 4 * count,
    ensures
        dec_words(b, count).len() == count,
    decreases count,
{
    if count > 0 {
        lemma_dec_words_len(b.skip(4), (count - 1) as nat);
    }
}

/// Words take 4 bytes each.
pub proof fn lemma_enc_words_len(ws: Seq<u32>)
    ensures
        enc_words(ws).len() == 4 * ws.len(),
    decreases ws.len(),
{
    lemma_auto_spec_u32_to_from_le_bytes();
    if ws.len() > 0 {
        lemma_enc_words_len(ws.drop_first());
    }
}

/// Encoding word after word is encoding the list.
pub proof fn lemma_enc_words_push(ws: Seq<u32>, w: u32)
    ensures
        enc_words(ws.push(w)) == enc_words(ws) + spec_u32_to_le_bytes(w),
    decreases ws.len(),
{
    if ws.len() == 0 {
        assert(ws.push(w).drop_first() =~= Seq::<u32>::empty());
        assert(enc_words(ws.push(w).drop_first()) =~= Seq::<u8>::empty());
        assert(ws.push(w)[0] == w);
        assert(enc_words(ws.push(w)) =~= spec_u32_to_le_bytes(w));
        assert(enc_words(ws) + spec_u32_to_le_bytes(w) =~= spec_u32_to_le_bytes(w));
    } else {
        assert(ws.push(w).drop_first() =~= ws.drop_first().push(w));
        lemma_enc_words_push(ws.drop_first(), w);
        assert(enc_words(ws.push(w)) =~= enc_words(ws) + spec_u32_to_le_bytes(w));
    }
}

/// Decoding encoded words, followed by anything, gives the words back.
pub proof fn law_words_round_trip(ws: Seq<u32>, tail: Seq<u8>)
    ensures
        dec_words(enc_words(ws) + tail, ws.len()) == ws,
    decreases ws.len(),
{
    lemma_auto_spec_u32_to_from_le_bytes();
    if ws.len() > 0 {
        let b = enc_words(ws) + tail;
        lemma_enc_words_len(ws.drop_first());
        law_words_round_trip(ws.drop_first(), tail);
        assert(b.take(4) =~= spec_u32_to_le_bytes(ws[0]));
        assert(b.skip(4) =~= enc_words(ws.drop_first()) + tail);
        assert(seq![ws[0]] + ws.drop_first() =~= ws);
    } else {
        assert(dec_words(enc_words(ws) + tail, 0) =~= ws);
    }
}

/// The rows, each as its words, one after the other.
pub open spec fn enc_rows(rows: Seq<Seq<u32>>) -> Seq<u8>
    decreases rows.len(),
{
    if rows.len() == 0 {
        Seq::empty()
    } else {
        enc_words(rows[0]) + enc_rows(rows.drop_first())
    }
}

/// `count` rows of `dim` words each, or nothing where `b` has another
/// length than these take.
pub open spec fn dec_rows(b: Seq<u8>, dim: nat, count: nat) -> Option<Seq<Seq<u32>>>
    decreases count,
{
    if count == 0 {
        if b.len() == 0 {
            Some(Seq::empty())
        } else {
            None
        }
    } else if b.len() < 4 * dim {
        None
    } else {
        match dec_rows(b.skip(4 * dim as int), dim, (count - 1) as nat) {
            Some(r) => Some(seq![dec_words(b.take(4 * dim as int), dim)] + r),
            None => None,
        }
    }
}

/// Every row has `dim` words.
pub open spec fn rows_fit(rows: Seq<Seq<u32>>, dim: nat) -> bool {
    forall|i: int| 0 <= i < rows.len() ==> (#[trigger] rows[i]).len() == dim
}

/// Encoding row after row is encoding the list.
pub proof fn lemma_enc_rows_push(rows: Seq<Seq<u32>>, row: Seq<u32>)
    ensures
        enc_rows(rows.push(row)) == enc_rows(rows) + enc_words(row),
    decreases rows.len(),
{
    if rows.len() == 0 {
        assert(rows.push(row).drop_first() =~= Seq::<Seq<u32>>::empty());
        assert(enc_rows(rows.push(row).drop_first()) =~= Seq::<u8>::empty());
        assert(rows.push(row)[0] == row);
        assert(enc_rows(rows.push(row)) =~= enc_words(row));
        assert(enc_rows(rows) + enc_words(row) =~= enc_words(row));
    } else {
        assert(rows.push(row).drop_first() =~= rows.drop_first().push(row));
        lemma_enc_rows_push(rows.drop_first(), row);
        assert(enc_rows(rows.push(row)) =~= enc_rows(rows) + enc_words(row));
    }
}

/// Decoding encoded rows gives the rows back.
pub proof fn law_rows_round_trip(rows: Seq<Seq<u32>>, dim: nat)
    requires
        rows_fit(rows, dim),
    ensures
        dec_rows(enc_rows(rows), dim, rows.len()) == Some(rows),
    decreases rows.len(),
{
    if rows.len() > 0 {
        let b = enc_rows(rows);
        let rest = rows.drop_first();
        assert(rows_fit(rest, dim)) by {
            assert forall|i: int| 0 <= i < rest.len() implies (#[trigger] rest[i]).len() == dim by {
                assert(rest[i] == rows[i + 1]);
            }
        }
        law_rows_round_trip(rest, dim);
        lemma_enc_words_len(rows[0]);
        law_words_round_trip(rows[0], Seq::empty());
        assert(b.take(4 * dim as int) =~= enc_words(rows[0]));
        assert(enc_words(rows[0]) + Seq::<u8>::empty() =~= enc_words(rows[0]));
        assert(b.skip(4 * dim as int) =~= enc_rows(rest));
        assert(seq![rows[0]] + rest =~= rows);
    }
}

/// The views of a list of rows.
pub open spec fn rows_view(rows: Seq<Vec<u32>>) -> Seq<Seq<u32>> {
    rows.map_values(|r: Vec<u32>| r@)
}

/// Writes the rows one after the other, 4 little-endian bytes per word.
pub fn encode_rows(rows: &Vec<Vec<u32>>) -> (out: Vec<u8>)
    ensures
        out@ == enc_rows(rows_view(rows@)),
{
    let ghost all = rows_view(rows@);
    let mut out: Vec<u8> = Vec::new();
    let mut i: usize = 0;
    assert(all.take(0) =~= Seq::<Seq<u32>>::empty());
    while i < rows.len()
        invariant
            i <= rows.len(),
            all == rows_view(rows@),
            out@ == enc_rows(all.take(i as int)),
        decreases rows.len() - i,
    {
        proof {
            assert(all.take(i as int + 1) =~= all.take(i as int).push(rows@[i as int]@));
            lemma_enc_rows_push(all.take(i as int), rows@[i as int]@);
        }
        let ghost before = out@;
        let ghost row = rows@[i as int]@;
        let mut j: usize = 0;
        assert(row.take(0) =~= Seq::<u32>::empty());
        assert(before + enc_words(row.take(0)) =~= before);
        while j < rows[i].len()
            invariant
                i < rows.len(),
                row == rows@[i as int]@,
                j <= row.len(),
                out@ == before + enc_words(row.take(j as int)),
            decreases row.len() - j,
        {
            proof {
                assert(row.take(j as int + 1) =~= row.take(j as int).push(row[j as int]));
                lemma_enc_words_push(row.take(j as int), row[j as int]);
            }
            let mut w = u32_to_le_bytes(rows[i][j]);
            out.append(&mut w);
            j += 1;
            assert(out@ =~= before + enc_words(row.take(j as int)));
        }
        assert(row.take(j as int) =~= row);
        i += 1;
    }
    assert(all.take(i as int) =~= all);
    out
}

/// `acc` in front of the rows that may follow.
pub open spec fn prepend_rows(acc: Seq<Seq<u32>>, rest: Option<Seq<Seq<u32>>>) -> Option<
    Seq<Seq<u32>>,
> {
    match rest {
        Some(r) => Some(acc + r),
        None => None,
    }
}

/// Reads `count` rows of `dim` words; `None` where `b` has another length
/// than these take.
pub fn decode_rows(b: &[u8], dim: usize, count: usize) -> (r: Option<Vec<Vec<u32>>>)
    ensures
        r is Some <==> dec_rows(b@, dim as nat, count as nat) is Some,
        r is Some ==> rows_view(r->Some_0@) == dec_rows(b@, dim as nat, count as nat)->Some_0,
{
    let mut out: Vec<Vec<u32>> = Vec::new();
    let mut pos: usize = 0;
    let mut k: usize = 0;
    proof {
        assert(b@.skip(0) =~= b@);
        let d = dec_rows(b@, dim as nat, count as nat);
        if d is Some {
            assert(Seq::<Seq<u32>>::empty() + d->Some_0 =~= d->Some_0);
        }
    }
    while k < count
        invariant
            k <= count,
            pos <= b.len(),
            dec_rows(b@, dim as nat, count as nat) == prepend_rows(
                rows_view(out@),
                dec_rows(b@.skip(pos as int), dim as nat, (count - k) as nat),
            ),
        decreases count - k,
    {
        let ghost rest = b@.skip(pos as int);
        let ghost acc = rows_view(out@);
        if dim > usize::MAX / 4 || b.len() - pos < 4 * dim {
            return None;
        }
        let chunk = slice_subrange(b, pos, pos + 4 * dim);
        assert(chunk@ =~= rest.take(4 * dim as int));
        let mut row: Vec<u32> = Vec::new();
        let mut j: usize = 0;
        proof {
            assert(chunk@.skip(0) =~= chunk@);
            assert(Seq::<u32>::empty() + dec_words(chunk@, dim as nat) =~= dec_words(
                chunk@,
                dim as nat,
            ));
        }
        while j < dim
            invariant
                j <= dim,
                chunk@.len() == 4 * dim,
                4 * dim <= usize::MAX,
                dec_words(chunk@, dim as nat) == row@ + dec_words(
                    chunk@.skip(4 * j as int),
                    (dim - j) as nat,
                ),
            decreases dim - j,
        {
            let ghost tail = chunk@.skip(4 * j as int);
            let w = slice_subrange(chunk, 4 * j, 4 * j + 4);
            assert(w@ =~= tail.take(4));
            let x = u32_from_le_bytes(w);
            let ghost row0 = row@;
            row.push(x);
            proof {
                assert(tail.skip(4) =~= chunk@.skip(4 * (j + 1) as int));
                assert(row0 + (seq![x] + dec_words(tail.skip(4), (dim - j - 1) as nat)) =~= row@ + dec_words(
                    tail.skip(4),
                    (dim - j - 1) as nat,
                ));
            }
            j += 1;
        }
        proof {
            assert(row@ + Seq::<u32>::empty() =~= row@);
        }
        out.push(row);
        proof {
            let tail = rest.skip(4 * dim as int);
            assert(tail =~= b@.skip(pos + 4 * dim));
            let acc2 = rows_view(out@);
            assert(acc2 =~= acc.push(row@));
            match dec_rows(tail, dim as nat, (count - k - 1) as nat) {
                Some(r) => {
                    assert(acc + (seq![row@] + r) =~= acc2 + r);
                },
                None => {},
            }
        }
        pos = pos + 4 * dim;
        k += 1;
    }
    if pos != b.len() {
        return None;
    }
    proof {
        assert(b@.skip(pos as int) =~= Seq::<u8>::empty());
        assert(rows_view(out@) + Seq::<Seq<u32>>::empty() =~= rows_view(out@));
    }
    Some(out)
}

/// One slot of the identifier list: a single 0 for a tombstone, or a 1
/// followed by the identifier in UTF-8.
pub open spec fn enc_slot(s: Option<Seq<char>>) -> Seq<u8> {
    match s {
        None => seq![0u8],
        Some(id) => seq![1u8] + encode_utf8(id),
    }
}

/// The slot that `c` encodes, or nothing where `c` encodes none.
pub open spec fn dec_slot(c: Seq<u8>) -> Option<Option<Seq<char>>> {
    if c.len() == 1 && c[0] == 0 {
        Some(None)
    } else if c.len() >= 1 && c[0] == 1 && valid_utf8(c.skip(1)) {
        Some(Some(decode_utf8(c.skip(1))))
    } else {
        None
    }
}

/// Decoding an encoded slot gives the slot back.
pub proof fn law_slot_round_trip(s: Option<Seq<char>>)
    ensures
        dec_slot(enc_slot(s)) == Some(s),
{
    match s {
        None => {},
        Some(id) => {
            let c = enc_slot(s);
            assert(c.skip(1) =~= encode_utf8(id));
            encode_utf8_valid_utf8(id);
            encode_utf8_decode_utf8(id);
        },
    }
}

/// Writes one slot of the identifier list.
pub fn encode_slot(s: Option<&String>) -> (out: Vec<u8>)
    ensures
        out@ == enc_slot(
            match s {
                Some(id) => Some(id@),
                None => None,
            },
        ),
{
    let mut out: Vec<u8> = Vec::new();
    match s {
        None => {
            out.push(0u8);
            assert(out@ =~= seq![0u8]);
        },
        Some(id) => {
            out.push(1u8);
            let bytes = id.as_str().as_bytes();
            let mut j: usize = 0;
            while j < bytes.len()
                invariant
                    j <= bytes@.len(),
                    out@ == seq![1u8] + bytes@.take(j as int),
                decreases bytes@.len() - j,
            {
                out.push(bytes[j]);
                j += 1;
                assert(out@ =~= seq![1u8] + bytes@.take(j as int));
            }
            assert(bytes@.take(j as int) =~= bytes@);
        },
    }
    out
}

/// Reads one slot of the identifier list.
pub fn decode_slot(c: &[u8]) -> (r: Option<Option<String>>)
    ensures
        r is Some <==> dec_slot(c@) is Some,
        r is Some ==> dec_slot(c@)->Some_0 == match r->Some_0 {
            Some(id) => Some(id@),
            None => None::<Seq<char>>,
        },
{
    if c.len() == 0 {
        return None;
    }
    if c[0] == 0 {
        if c.len() == 1 {
            return Some(None);
        }
        return None;
    }
    if c[0] != 1 {
        return None;
    }
    let mut body: Vec<u8> = Vec::new();
    let mut j: usize = 1;
    while j < c.len()
        invariant
            1 <= j <= c@.len(),
            body@ == c@.subrange(1, j as int),
        decreases c@.len() - j,
    {
        body.push(c[j]);
        j += 1;
        assert(body@ =~= c@.subrange(1, j as int));
    }
    assert(body@ =~= c@.skip(1));
    match string_from_utf8(body) {
        Some(id) => Some(Some(id)),
        None => None,
    }
}

/// First value of the content hash.
pub const HASH_BASIS: u64 = 0xcbf2_9ce4_8422_2325;

/// Multiplier of the content hash.
pub const HASH_PRIME: u64 = 0x0000_0100_0000_01b3;

/// The hash after one more byte: the byte is mixed into the low bits, then
/// the whole is multiplied, keeping 64 bits.
pub open spec fn hash_step(h: u64, byte: u8) -> u64 {
    (((h ^ (byte as u64)) as int * HASH_PRIME as int) % 0x1_0000_0000_0000_0000) as u64
}

/// The content hash of `b` (64-bit FNV-1a).
pub open spec fn hash_of(b: Seq<u8>) -> u64
    decreases b.len(),
{
    if b.len() == 0 {
        HASH_BASIS
    } else {
        hash_step(hash_of(b.drop_last()), b.last())
    }
}

/// The content hash of `b`.
pub fn content_hash(b: &[u8]) -> (h: u64)
    ensures
        h == hash_of(b@),
{
    let mut h: u64 = HASH_BASIS;
    let mut i: usize = 0;
    assert(b@.take(0) =~= Seq::<u8>::empty());
    while i < b.len()
        invariant
            i <= b.len(),
            h == hash_of(b@.take(i as int)),
        decreases b.len() - i,
    {
        proof {
            assert(b@.take(i as int + 1).drop_last() =~= b@.take(i as int));
            assert(b@.take(i as int + 1).last() == b@[i as int]);
        }
        let x: u64 = h ^ (b[i] as u64);
        assert((x as u128) * (HASH_PRIME as u128) <= u128::MAX) by (nonlinear_arith)
            requires
                x <= u64::MAX,
                HASH_PRIME == 0x0000_0100_0000_01b3,
        ;
        let wide: u128 = (x as u128) * (HASH_PRIME as u128);
        h = (wide % 0x1_0000_0000_0000_0000u128) as u64;
        i += 1;
    }
    assert(b@.take(i as int) =~= b@);
    h
}

} // verus!
