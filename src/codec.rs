//! Primitive fields of the durable byte layout: little-endian integers,
//! length-prefixed UTF-8 text, one-byte-prefixed blobs and presence flags.
//!
//! Each field has a spec encoder, a spec decoder reading at a position and
//! returning the value with the position after it, and executable writers
//! and readers proved against both.

use vstd::prelude::*;
use vstd::bytes::*;
use vstd::slice::*;
use vstd::utf8::*;
use crate::text::utf8_len;

verus! {

broadcast use vstd::string::group_string_axioms, vstd::utf8::group_utf8_lib;

/// A record's bytes end inside a field: the value is corrupt, not old.
#[derive(Debug, Clone, Copy, PartialEq, Eq)]
pub enum DecodeFault {
    Truncated,
}

/// What `String::from_utf8_lossy` makes of bytes that are not valid UTF-8.
pub uninterp spec fn lossy_text(b: Seq<u8>) -> Seq<char>;

/// The text that a field's bytes decode to.
pub open spec fn text_of(b: Seq<u8>) -> Seq<char> {
    if valid_utf8(b) {
        decode_utf8(b)
    } else {
        lossy_text(b)
    }
}

/// Relies on `String::from_utf8_lossy`: valid UTF-8 decodes to the characters
/// it encodes; anything else decodes with replacement characters.
#[verifier::external_body]
pub(crate) fn text_from_bytes(b: &[u8]) -> (r: String)
    ensures
        valid_utf8(b@) ==> r@ == decode_utf8(b@),
        !valid_utf8(b@) ==> r@ == lossy_text(b@),
{
    String::from_utf8_lossy(b).into_owned()
}

pub open spec fn enc_u32(x: u32) -> Seq<u8> {
    spec_u32_to_le_bytes(x)
}

pub open spec fn enc_u64(x: u64) -> Seq<u8> {
    spec_u64_to_le_bytes(x)
}

/// A text field: its UTF-8 byte count as a `u32`, then the bytes.
pub open spec fn enc_text(s: Seq<char>) -> Seq<u8> {
    enc_u32(utf8_len(s) as u32) + encode_utf8(s)
}

/// A text whose byte count fits the length prefix.
pub open spec fn text_fits(s: Seq<char>) -> bool {
    utf8_len(s) <= u32::MAX
}

/// A blob field: its byte count as one byte, then the bytes.
pub open spec fn enc_blob(b: Seq<u8>) -> Seq<u8> {
    seq![b.len() as u8] + b
}

/// An optional text: a presence byte, then the text if present.
pub open spec fn enc_opt_text(o: Option<Seq<char>>) -> Seq<u8> {
    match o {
        Some(s) => seq![1u8] + enc_text(s),
        None => seq![0u8],
    }
}

pub open spec fn dec_u32(d: Seq<u8>, p: int) -> Option<(u32, int)> {
    if 0 <= p && p + 4 <= d.len() {
        Some((spec_u32_from_le_bytes(d.subrange(p, p + 4)), p + 4))
    } else {
        None
    }
}

pub open spec fn dec_u64(d: Seq<u8>, p: int) -> Option<(u64, int)> {
    if 0 <= p && p + 8 <= d.len() {
        Some((spec_u64_from_le_bytes(d.subrange(p, p + 8)), p + 8))
    } else {
        None
    }
}

pub open spec fn dec_text(d: Seq<u8>, p: int) -> Option<(Seq<char>, int)> {
    match dec_u32(d, p) {
        Some((n, q)) => if q + n <= d.len() {
            Some((text_of(d.subrange(q, q + n)), q + n))
        } else {
            None
        },
        None => None,
    }
}

pub open spec fn dec_blob(d: Seq<u8>, p: int) -> Option<(Seq<u8>, int)> {
    if 0 <= p < d.len() && p + 1 + d[p] <= d.len() {
        Some((d.subrange(p + 1, p + 1 + d[p]), p + 1 + d[p]))
    } else {
        None
    }
}

pub open spec fn dec_opt_text(d: Seq<u8>, p: int) -> Option<(Option<Seq<char>>, int)> {
    if 0 <= p < d.len() {
        if d[p] == 1 {
            match dec_text(d, p + 1) {
                Some((s, q)) => Some((Some(s), q)),
                None => None,
            }
        } else {
            Some((None, p + 1))
        }
    } else {
        None
    }
}

pub proof fn lemma_enc_len()
    ensures
        forall|x: u32| #[trigger] enc_u32(x).len() == 4,
        forall|x: u64| #[trigger] enc_u64(x).len() == 8,
{
    lemma_auto_spec_u32_to_from_le_bytes();
    lemma_auto_spec_u64_to_from_le_bytes();
}

pub proof fn lemma_dec_u32(pre: Seq<u8>, x: u32, post: Seq<u8>)
    ensures
        dec_u32(pre + enc_u32(x) + post, pre.len() as int) == Some((x, pre.len() + 4int)),
{
    lemma_auto_spec_u32_to_from_le_bytes();
    let d = pre + enc_u32(x) + post;
    assert(d.subrange(pre.len() as int, pre.len() + 4int) =~= enc_u32(x));
}

pub proof fn lemma_dec_u64(pre: Seq<u8>, x: u64, post: Seq<u8>)
    ensures
        dec_u64(pre + enc_u64(x) + post, pre.len() as int) == Some((x, pre.len() + 8int)),
{
    lemma_auto_spec_u64_to_from_le_bytes();
    let d = pre + enc_u64(x) + post;
    assert(d.subrange(pre.len() as int, pre.len() + 8int) =~= enc_u64(x));
}

pub proof fn lemma_dec_text(pre: Seq<u8>, s: Seq<char>, post: Seq<u8>)
    requires
        text_fits(s),
    ensures
        dec_text(pre + enc_text(s) + post, pre.len() as int) == Some(
            (s, (pre.len() + enc_text(s).len()) as int),
        ),
        enc_text(s).len() == 4 + utf8_len(s),
{
    lemma_enc_len();
    let n = utf8_len(s) as u32;
    let b = encode_utf8(s);
    let d = pre + enc_text(s) + post;
    assert(d =~= pre + enc_u32(n) + (b + post));
    lemma_dec_u32(pre, n, b + post);
    let q = pre.len() + 4int;
    assert(d.subrange(q, q + n) =~= b);
}

pub proof fn lemma_dec_blob(pre: Seq<u8>, b: Seq<u8>, post: Seq<u8>)
    requires
        b.len() <= 255,
    ensures
        dec_blob(pre + enc_blob(b) + post, pre.len() as int) == Some(
            (b, (pre.len() + enc_blob(b).len()) as int),
        ),
        enc_blob(b).len() == 1 + b.len(),
{
    let d = pre + enc_blob(b) + post;
    let p = pre.len() as int;
    assert(d[p] == b.len() as u8);
    assert(d.subrange(p + 1, p + 1 + b.len()) =~= b);
}

pub proof fn lemma_dec_opt_text(pre: Seq<u8>, o: Option<Seq<char>>, post: Seq<u8>)
    requires
        o matches Some(s) ==> text_fits(s),
    ensures
        dec_opt_text(pre + enc_opt_text(o) + post, pre.len() as int) == Some(
            (o, (pre.len() + enc_opt_text(o).len()) as int),
        ),
{
    let d = pre + enc_opt_text(o) + post;
    let p = pre.len() as int;
    match o {
        Some(s) => {
            assert(d =~= (pre + seq![1u8]) + enc_text(s) + post);
            lemma_dec_text(pre + seq![1u8], s, post);
        },
        None => {},
    }
}

pub fn write_u32(buf: &mut Vec<u8>, v: u32)
    ensures
        final(buf)@ == old(buf)@ + enc_u32(v),
{
    let mut b = u32_to_le_bytes(v);
    buf.append(&mut b);
}

pub fn write_u64(buf: &mut Vec<u8>, v: u64)
    ensures
        final(buf)@ == old(buf)@ + enc_u64(v),
{
    let mut b = u64_to_le_bytes(v);
    buf.append(&mut b);
}

/// Appends a text field.
pub fn write_str(buf: &mut Vec<u8>, s: &str)
    requires
        text_fits(s@),
    ensures
        final(buf)@ == old(buf)@ + enc_text(s@),
{
    let bytes = s.as_bytes();
    let n = s.len();
    write_u32(buf, n as u32);
    let mut body = slice_to_vec(bytes);
    buf.append(&mut body);
    assert(final(buf)@ =~= old(buf)@ + enc_text(s@));
}

/// Appends a blob field.
pub fn write_blob(buf: &mut Vec<u8>, b: &[u8])
    requires
        b@.len() <= 255,
    ensures
        final(buf)@ == old(buf)@ + enc_blob(b@),
{
    buf.push(b.len() as u8);
    let mut body = slice_to_vec(b);
    buf.append(&mut body);
    assert(final(buf)@ =~= old(buf)@ + enc_blob(b@));
}

/// Appends an optional text field.
pub fn write_opt_str(buf: &mut Vec<u8>, o: &Option<String>)
    requires
        o matches Some(s) ==> text_fits(s@),
    ensures
        final(buf)@ == old(buf)@ + enc_opt_text(opt_view(o)),
{
    match o {
        Some(s) => {
            buf.push(1u8);
            write_str(buf, s.as_str());
            assert(final(buf)@ =~= old(buf)@ + enc_opt_text(opt_view(o)));
        },
        None => {
            buf.push(0u8);
            assert(final(buf)@ =~= old(buf)@ + enc_opt_text(opt_view(o)));
        },
    }
}

/// The characters of an optional string.
pub open spec fn opt_view(o: &Option<String>) -> Option<Seq<char>> {
    match o {
        Some(s) => Some(s@),
        None => None,
    }
}

pub fn read_u32(data: &[u8], pos: &mut usize) -> (r: Result<u32, DecodeFault>)
    ensures
        match dec_u32(data@, *old(pos) as int) {
            Some((v, q)) => r == Ok::<u32, DecodeFault>(v) && *final(pos) == q,
            None => r is Err,
        },
{
    if *pos > data.len() || data.len() - *pos < 4 {
        return Err(DecodeFault::Truncated);
    }
    let v = u32_from_le_bytes(slice_subrange(data, *pos, *pos + 4));
    *pos = *pos + 4;
    Ok(v)
}

pub fn read_u64(data: &[u8], pos: &mut usize) -> (r: Result<u64, DecodeFault>)
    ensures
        match dec_u64(data@, *old(pos) as int) {
            Some((v, q)) => r == Ok::<u64, DecodeFault>(v) && *final(pos) == q,
            None => r is Err,
        },
{
    if *pos > data.len() || data.len() - *pos < 8 {
        return Err(DecodeFault::Truncated);
    }
    let v = u64_from_le_bytes(slice_subrange(data, *pos, *pos + 8));
    *pos = *pos + 8;
    Ok(v)
}

/// Reads a text field.
pub fn read_str(data: &[u8], pos: &mut usize) -> (r: Result<String, DecodeFault>)
    ensures
        match dec_text(data@, *old(pos) as int) {
            Some((s, q)) => r matches Ok(t) && t@ == s && *final(pos) == q,
            None => r is Err,
        },
{
    let n = read_u32(data, pos)?;
    let n = n as usize;
    if data.len() - *pos < n {
        return Err(DecodeFault::Truncated);
    }
    let s = text_from_bytes(slice_subrange(data, *pos, *pos + n));
    *pos = *pos + n;
    Ok(s)
}

/// Reads a blob field.
pub fn read_blob(data: &[u8], pos: &mut usize) -> (r: Result<Vec<u8>, DecodeFault>)
    ensures
        match dec_blob(data@, *old(pos) as int) {
            Some((b, q)) => r matches Ok(v) && v@ == b && *final(pos) == q,
            None => r is Err,
        },
{
    if *pos >= data.len() {
        return Err(DecodeFault::Truncated);
    }
    let n = data[*pos] as usize;
    if data.len() - *pos - 1 < n {
        return Err(DecodeFault::Truncated);
    }
    let v = slice_to_vec(slice_subrange(data, *pos + 1, *pos + 1 + n));
    *pos = *pos + 1 + n;
    Ok(v)
}

/// Reads an optional text field.
pub fn read_opt_str(data: &[u8], pos: &mut usize) -> (r: Result<Option<String>, DecodeFault>)
    ensures
        match dec_opt_text(data@, *old(pos) as int) {
            Some((o, q)) => r matches Ok(v) && opt_view(&v) == o && *final(pos) == q,
            None => r is Err,
        },
{
    if *pos >= data.len() {
        return Err(DecodeFault::Truncated);
    }
    let flag = data[*pos];
    *pos = *pos + 1;
    if flag == 1 {
        let s = read_str(data, pos)?;
        Ok(Some(s))
    } else {
        Ok(None)
    }
}

/// The characters of each string.
pub open spec fn texts_view(v: Seq<String>) -> Seq<Seq<char>> {
    v.map_values(|s: String| s@)
}

/// A list of texts, without its count.
pub open spec fn enc_text_list(ts: Seq<Seq<char>>) -> Seq<u8>
    decreases ts.len(),
{
    if ts.len() == 0 {
        Seq::empty()
    } else {
        enc_text(ts[0]) + enc_text_list(ts.drop_first())
    }
}

/// A list of blobs, without its count.
pub open spec fn enc_blob_list(bs: Seq<Seq<u8>>) -> Seq<u8>
    decreases bs.len(),
{
    if bs.len() == 0 {
        Seq::empty()
    } else {
        enc_blob(bs[0]) + enc_blob_list(bs.drop_first())
    }
}

pub open spec fn dec_text_list(d: Seq<u8>, p: int, n: nat) -> Option<(Seq<Seq<char>>, int)>
    decreases n,
{
    if n == 0 {
        Some((Seq::empty(), p))
    } else {
        match dec_text(d, p) {
            Some((t, q)) => match dec_text_list(d, q, (n - 1) as nat) {
                Some((ts, r)) => Some((seq![t] + ts, r)),
                None => None,
            },
            None => None,
        }
    }
}

pub open spec fn dec_blob_list(d: Seq<u8>, p: int, n: nat) -> Option<(Seq<Seq<u8>>, int)>
    decreases n,
{
    if n == 0 {
        Some((Seq::empty(), p))
    } else {
        match dec_blob(d, p) {
            Some((b, q)) => match dec_blob_list(d, q, (n - 1) as nat) {
                Some((bs, r)) => Some((seq![b] + bs, r)),
                None => None,
            },
            None => None,
        }
    }
}

pub proof fn lemma_enc_text_list_push(ts: Seq<Seq<char>>, t: Seq<char>)
    ensures
        enc_text_list(ts.push(t)) == enc_text_list(ts) + enc_text(t),
    decreases ts.len(),
{
    if ts.len() == 0 {
        assert(ts.push(t).drop_first() =~= Seq::<Seq<char>>::empty());
        assert(ts.push(t)[0] == t);
        assert(enc_text_list(Seq::<Seq<char>>::empty()) =~= Seq::<u8>::empty());
        assert(enc_text_list(ts.push(t)) =~= enc_text_list(ts) + enc_text(t));
    } else {
        assert(ts.push(t).drop_first() =~= ts.drop_first().push(t));
        lemma_enc_text_list_push(ts.drop_first(), t);
        assert(enc_text_list(ts.push(t)) =~= enc_text_list(ts) + enc_text(t));
    }
}

pub proof fn lemma_enc_blob_list_push(bs: Seq<Seq<u8>>, b: Seq<u8>)
    ensures
        enc_blob_list(bs.push(b)) == enc_blob_list(bs) + enc_blob(b),
    decreases bs.len(),
{
    if bs.len() == 0 {
        assert(bs.push(b).drop_first() =~= Seq::<Seq<u8>>::empty());
        assert(bs.push(b)[0] == b);
        assert(enc_blob_list(Seq::<Seq<u8>>::empty()) =~= Seq::<u8>::empty());
        assert(enc_blob_list(bs.push(b)) =~= enc_blob_list(bs) + enc_blob(b));
    } else {
        assert(bs.push(b).drop_first() =~= bs.drop_first().push(b));
        lemma_enc_blob_list_push(bs.drop_first(), b);
        assert(enc_blob_list(bs.push(b)) =~= enc_blob_list(bs) + enc_blob(b));
    }
}

pub proof fn lemma_dec_text_list(pre: Seq<u8>, ts: Seq<Seq<char>>, post: Seq<u8>)
    requires
        forall|i: int| 0 <= i < ts.len() ==> text_fits(#[trigger] ts[i]),
    ensures
        dec_text_list(pre + enc_text_list(ts) + post, pre.len() as int, ts.len()) == Some(
            (ts, (pre.len() + enc_text_list(ts).len()) as int),
        ),
    decreases ts.len(),
{
    if ts.len() == 0 {
        assert(ts =~= Seq::<Seq<char>>::empty());
    } else {
        let rest = ts.drop_first();
        let d = pre + enc_text_list(ts) + post;
        assert(d =~= pre + enc_text(ts[0]) + (enc_text_list(rest) + post));
        lemma_dec_text(pre, ts[0], enc_text_list(rest) + post);
        assert(d =~= (pre + enc_text(ts[0])) + enc_text_list(rest) + post);
        lemma_dec_text_list(pre + enc_text(ts[0]), rest, post);
        assert(seq![ts[0]] + rest =~= ts);
    }
}

pub proof fn lemma_dec_blob_list(pre: Seq<u8>, bs: Seq<Seq<u8>>, post: Seq<u8>)
    requires
        forall|i: int| 0 <= i < bs.len() ==> (#[trigger] bs[i]).len() <= 255,
    ensures
        dec_blob_list(pre + enc_blob_list(bs) + post, pre.len() as int, bs.len()) == Some(
            (bs, (pre.len() + enc_blob_list(bs).len()) as int),
        ),
    decreases bs.len(),
{
    if bs.len() == 0 {
        assert(bs =~= Seq::<Seq<u8>>::empty());
    } else {
        let rest = bs.drop_first();
        let d = pre + enc_blob_list(bs) + post;
        assert(d =~= pre + enc_blob(bs[0]) + (enc_blob_list(rest) + post));
        lemma_dec_blob(pre, bs[0], enc_blob_list(rest) + post);
        assert(d =~= (pre + enc_blob(bs[0])) + enc_blob_list(rest) + post);
        lemma_dec_blob_list(pre + enc_blob(bs[0]), rest, post);
        assert(seq![bs[0]] + rest =~= bs);
    }
}

/// Appends each text of `v` in turn.
pub fn write_str_list(buf: &mut Vec<u8>, v: &Vec<String>)
    requires
        forall|i: int| 0 <= i < v@.len() ==> text_fits(#[trigger] v@[i]@),
    ensures
        final(buf)@ == old(buf)@ + enc_text_list(texts_view(v@)),
{
    let mut i: usize = 0;
    while i < v.len()
        invariant
            i <= v@.len(),
            forall|j: int| 0 <= j < v@.len() ==> text_fits(#[trigger] v@[j]@),
            buf@ == old(buf)@ + enc_text_list(texts_view(v@.subrange(0, i as int))),
        decreases v@.len() - i,
    {
        proof {
            assert(texts_view(v@.subrange(0, i + 1)) =~= texts_view(v@.subrange(0, i as int)).push(
                v@[i as int]@,
            ));
            lemma_enc_text_list_push(texts_view(v@.subrange(0, i as int)), v@[i as int]@);
        }
        write_str(buf, v[i].as_str());
        i = i + 1;
    }
    assert(v@.subrange(0, i as int) =~= v@);
}

/// Appends each blob of `v` in turn.
pub fn write_blob_list(buf: &mut Vec<u8>, v: &Vec<Vec<u8>>)
    requires
        forall|i: int| 0 <= i < v@.len() ==> (#[trigger] v@[i]@).len() <= 255,
    ensures
        final(buf)@ == old(buf)@ + enc_blob_list(blobs_view(v@)),
{
    let mut i: usize = 0;
    while i < v.len()
        invariant
            i <= v@.len(),
            forall|j: int| 0 <= j < v@.len() ==> (#[trigger] v@[j]@).len() <= 255,
            buf@ == old(buf)@ + enc_blob_list(blobs_view(v@.subrange(0, i as int))),
        decreases v@.len() - i,
    {
        proof {
            assert(blobs_view(v@.subrange(0, i + 1)) =~= blobs_view(v@.subrange(0, i as int)).push(
                v@[i as int]@,
            ));
            lemma_enc_blob_list_push(blobs_view(v@.subrange(0, i as int)), v@[i as int]@);
        }
        write_blob(buf, v[i].as_slice());
        i = i + 1;
    }
    assert(v@.subrange(0, i as int) =~= v@);
}

/// The bytes of each blob.
pub open spec fn blobs_view(v: Seq<Vec<u8>>) -> Seq<Seq<u8>> {
    v.map_values(|b: Vec<u8>| b@)
}

/// Reads `n` text fields.
pub fn read_str_list(data: &[u8], pos: &mut usize, n: u32) -> (r: Result<Vec<String>, DecodeFault>)
    ensures
        match dec_text_list(data@, *old(pos) as int, n as nat) {
            Some((ts, q)) => r matches Ok(v) && texts_view(v@) == ts && *final(pos) == q,
            None => r is Err,
        },
{
    let mut out: Vec<String> = Vec::new();
    let mut i: u32 = 0;
    while i < n
        invariant
            i <= n,
            dec_text_list(data@, *old(pos) as int, n as nat) == match dec_text_list(
                data@,
                *pos as int,
                (n - i) as nat,
            ) {
                Some((ts, q)) => Some((texts_view(out@) + ts, q)),
                None => None,
            },
        decreases n - i,
    {
        let ghost before = *pos;
        let s = read_str(data, pos)?;
        proof {
            assert(texts_view(out@.push(s)) =~= texts_view(out@).push(s@));
            match dec_text_list(data@, *pos as int, (n - i - 1) as nat) {
                Some((ts, q)) => {
                    assert(texts_view(out@) + (seq![s@] + ts) =~= texts_view(out@).push(s@) + ts);
                },
                None => {},
            }
        }
        out.push(s);
        i = i + 1;
    }
    proof {
        assert(texts_view(out@) + Seq::<Seq<char>>::empty() =~= texts_view(out@));
    }
    Ok(out)
}

/// Reads `n` blob fields.
pub fn read_blob_list(data: &[u8], pos: &mut usize, n: u32) -> (r: Result<Vec<Vec<u8>>, DecodeFault>)
    ensures
        match dec_blob_list(data@, *old(pos) as int, n as nat) {
            Some((bs, q)) => r matches Ok(v) && blobs_view(v@) == bs && *final(pos) == q,
            None => r is Err,
        },
{
    let mut out: Vec<Vec<u8>> = Vec::new();
    let mut i: u32 = 0;
    while i < n
        invariant
            i <= n,
            dec_blob_list(data@, *old(pos) as int, n as nat) == match dec_blob_list(
                data@,
                *pos as int,
                (n - i) as nat,
            ) {
                Some((bs, q)) => Some((blobs_view(out@) + bs, q)),
                None => None,
            },
        decreases n - i,
    {
        let b = read_blob(data, pos)?;
        proof {
            assert(blobs_view(out@.push(b)) =~= blobs_view(out@).push(b@));
            match dec_blob_list(data@, *pos as int, (n - i - 1) as nat) {
                Some((bs, q)) => {
                    assert(blobs_view(out@) + (seq![b@] + bs) =~= blobs_view(out@).push(b@) + bs);
                },
                None => {},
            }
        }
        out.push(b);
        i = i + 1;
    }
    proof {
        assert(blobs_view(out@) + Seq::<Seq<u8>>::empty() =~= blobs_view(out@));
    }
    Ok(out)
}

} // verus!
