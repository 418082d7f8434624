//! The hot-cache file: the byte ranges needed to open an index with
//! no further reads, framed into one blob that a leaf fetches in a
//! single request and seeds its cache from. The framing is length
//! prefixed throughout — a count, then per range the path length,
//! the path, the range start, the data length and the data — and
//! decoding what was encoded gives the ranges back exactly.

use vstd::prelude::*;
use vstd::bytes::{
    lemma_auto_spec_u64_to_from_le_bytes, spec_u64_from_le_bytes, spec_u64_to_le_bytes,
    u64_from_le_bytes, u64_to_le_bytes,
};
use vstd::slice::slice_subrange;

verus! {

/// One byte range of the bundle: which bytes of which file, with the
/// path kept as bytes so the blob is self-contained.
#[derive(Debug)]
pub struct HotCacheEntry {
    /// The file the range belongs to, as path bytes.
    pub path: Vec<u8>,
    /// Where the range starts in the file.
    pub start: u64,
    /// The bytes of the range.
    pub bytes: Vec<u8>,
}

/// The mathematical content of one entry.
pub open spec fn entry_view(e: HotCacheEntry) -> (Seq<u8>, u64, Seq<u8>) {
    (e.path@, e.start, e.bytes@)
}

/// The mathematical content of a list of entries.
pub open spec fn entry_views(entries: Seq<HotCacheEntry>) -> Seq<(Seq<u8>, u64, Seq<u8>)> {
    entries.map_values(|e: HotCacheEntry| entry_view(e))
}

/// The framing of one entry.
pub open spec fn encode_entry(e: (Seq<u8>, u64, Seq<u8>)) -> Seq<u8> {
    spec_u64_to_le_bytes(e.0.len() as u64) + e.0 + spec_u64_to_le_bytes(e.1)
        + spec_u64_to_le_bytes(e.2.len() as u64) + e.2
}

/// The framing of a list of entries, in order.
pub open spec fn encode_entries(entries: Seq<(Seq<u8>, u64, Seq<u8>)>) -> Seq<u8>
    decreases entries.len(),
{
    if entries.len() == 0 {
        Seq::empty()
    } else {
        encode_entries(entries.drop_last()) + encode_entry(entries.last())
    }
}

/// The whole blob: the count, then the entries.
pub open spec fn encode_blob(entries: Seq<(Seq<u8>, u64, Seq<u8>)>) -> Seq<u8> {
    spec_u64_to_le_bytes(entries.len() as u64) + encode_entries(entries)
}

/// The parser: `count` entries from position `pos` on, consuming the
/// blob exactly.
pub open spec fn parse_entries(blob: Seq<u8>, pos: int, count: int) -> Option<
    Seq<(Seq<u8>, u64, Seq<u8>)>,
>
    decreases count,
{
    if count <= 0 {
        if pos == blob.len() {
            Option::Some(Seq::empty())
        } else {
            Option::None
        }
    } else if pos + 8 > blob.len() {
        Option::None
    } else {
        let path_len = spec_u64_from_le_bytes(blob.subrange(pos, pos + 8)) as int;
        if pos + 8 + path_len + 8 + 8 > blob.len() {
            Option::None
        } else {
            let path = blob.subrange(pos + 8, pos + 8 + path_len);
            let start = spec_u64_from_le_bytes(
                blob.subrange(pos + 8 + path_len, pos + 16 + path_len),
            );
            let data_len = spec_u64_from_le_bytes(
                blob.subrange(pos + 16 + path_len, pos + 24 + path_len),
            ) as int;
            if pos + 24 + path_len + data_len > blob.len() {
                Option::None
            } else {
                let data = blob.subrange(pos + 24 + path_len, pos + 24 + path_len + data_len);
                match parse_entries(blob, pos + 24 + path_len + data_len, count - 1) {
                    Option::Some(rest) => Option::Some(seq![(path, start, data)] + rest),
                    Option::None => Option::None,
                }
            }
        }
    }
}

/// What a blob means: the count it announces, then that many entries
/// consuming it exactly.
pub open spec fn decode_blob(blob: Seq<u8>) -> Option<Seq<(Seq<u8>, u64, Seq<u8>)>> {
    if blob.len() < 8 {
        Option::None
    } else {
        parse_entries(blob, 8, spec_u64_from_le_bytes(blob.subrange(0, 8)) as int)
    }
}

/// Appends a copy of `src` to `dst`.
fn extend_bytes(dst: &mut Vec<u8>, src: &Vec<u8>)
    ensures
        final(dst)@ == old(dst)@ + src@,
{
    let n = src.len();
    let mut i: usize = 0;
    while i < n
        invariant
            n == src@.len(),
            i <= n,
            dst@ == old(dst)@ + src@.take(i as int),
        decreases n - i,
    {
        dst.push(src[i]);
        proof {
            assert(old(dst)@ + src@.take(i as int + 1) =~= (old(dst)@ + src@.take(i as int)).push(
                src@[i as int],
            ));
        }
        i = i + 1;
    }
    proof {
        crate::seq_lemmas::lemma_take_all(src@);
        assert(dst@ =~= old(dst)@ + src@);
    }
}

/// Frames the entries into one blob.
pub fn encode_hotcache(entries: &Vec<HotCacheEntry>) -> (r: Vec<u8>)
    requires
        entries@.len() <= u64::MAX,
    ensures
        r@ == encode_blob(entry_views(entries@)),
{
    let ghost views = entry_views(entries@);
    let n = entries.len();
    let mut blob = u64_to_le_bytes(n as u64);
    let mut i: usize = 0;
    proof {
        assert(views.len() == entries@.len());
        assert(blob@ + encode_entries(views.take(0)) =~= blob@);
    }
    while i < n
        invariant
            n == entries@.len(),
            i <= n,
            views == entry_views(entries@),
            blob@ == spec_u64_to_le_bytes(n as u64) + encode_entries(views.take(i as int)),
        decreases n - i,
    {
        let entry = &entries[i];
        extend_bytes(&mut blob, &u64_to_le_bytes(entry.path.len() as u64));
        extend_bytes(&mut blob, &entry.path);
        extend_bytes(&mut blob, &u64_to_le_bytes(entry.start));
        extend_bytes(&mut blob, &u64_to_le_bytes(entry.bytes.len() as u64));
        extend_bytes(&mut blob, &entry.bytes);
        proof {
            assert(views.take(i as int + 1).drop_last() == views.take(i as int));
            assert(views.take(i as int + 1).last() == views[i as int]);
            assert(views[i as int] == entry_view(entries@[i as int]));
            assert(blob@ =~= spec_u64_to_le_bytes(n as u64) + encode_entries(
                views.take(i as int + 1),
            ));
        }
        i = i + 1;
    }
    proof {
        crate::seq_lemmas::lemma_take_all(views);
    }
    blob
}

/// Unframes a blob. A blob that was encoded comes back as exactly
/// the entries that went in; a malformed blob is refused.
pub fn decode_hotcache(blob: &Vec<u8>) -> (r: Option<Vec<HotCacheEntry>>)
    ensures
        match r {
            Some(entries) => decode_blob(blob@) == Some(entry_views(entries@)),
            None => decode_blob(blob@) is None,
        },
{
    if blob.len() < 8 {
        return None;
    }
    let count = u64_from_le_bytes(slice_subrange(blob.as_slice(), 0, 8));
    let ghost goal = parse_entries(blob@, 8, count as int);
    proof {
        assert(decode_blob(blob@) == goal);
    }
    let mut out: Vec<HotCacheEntry> = Vec::new();
    let mut pos: usize = 8;
    let mut remaining = count;
    proof {
        assert(goal == parse_entries(blob@, pos as int, remaining as int));
        if goal is Some {
            assert(goal->Some_0 =~= entry_views(out@) + goal->Some_0);
        }
    }
    while remaining > 0
        invariant
            8 <= pos <= blob@.len(),
            goal == decode_blob(blob@),
            match parse_entries(blob@, pos as int, remaining as int) {
                Option::Some(rest) => goal == Some(entry_views(out@) + rest),
                Option::None => goal is None,
            },
        decreases remaining,
    {
        let ghost pre_out = out@;
        if blob.len() - pos < 8 {
            proof {
                assert(parse_entries(blob@, pos as int, remaining as int) is None);
            }
            return None;
        }
        let path_len_u64 = u64_from_le_bytes(slice_subrange(blob.as_slice(), pos, pos + 8));
        if path_len_u64 > (blob.len() - pos - 8) as u64 {
            proof {
                assert(parse_entries(blob@, pos as int, remaining as int) is None);
            }
            return None;
        }
        let path_len = path_len_u64 as usize;
        if blob.len() - pos - 8 - path_len < 16 {
            proof {
                assert(parse_entries(blob@, pos as int, remaining as int) is None);
            }
            return None;
        }
        let path = slice_to_vec_range(blob, pos + 8, pos + 8 + path_len);
        let start = u64_from_le_bytes(
            slice_subrange(blob.as_slice(), pos + 8 + path_len, pos + 16 + path_len),
        );
        let data_len_u64 = u64_from_le_bytes(
            slice_subrange(blob.as_slice(), pos + 16 + path_len, pos + 24 + path_len),
        );
        if data_len_u64 > (blob.len() - pos - 24 - path_len) as u64 {
            proof {
                assert(parse_entries(blob@, pos as int, remaining as int) is None);
            }
            return None;
        }
        let data_len = data_len_u64 as usize;
        let data = slice_to_vec_range(blob, pos + 24 + path_len, pos + 24 + path_len + data_len);
        out.push(HotCacheEntry { path, start, bytes: data });
        proof {
            let p = pos as int;
            let rest0 = parse_entries(blob@, p, remaining as int);
            assert(entry_views(out@) =~= entry_views(pre_out).push(entry_view(
                out@[pre_out.len() as int],
            )));
            if rest0 is Some {
                let tail = parse_entries(
                    blob@,
                    p + 24 + path_len as int + data_len as int,
                    remaining as int - 1,
                );
                assert(tail is Some);
                assert(rest0->Some_0 == seq![
                    (
                        blob@.subrange(p + 8, p + 8 + path_len as int),
                        start,
                        blob@.subrange(
                            p + 24 + path_len as int,
                            p + 24 + path_len as int + data_len as int,
                        ),
                    ),
                ] + tail->Some_0);
                assert(entry_views(pre_out) + rest0->Some_0 =~= entry_views(out@)
                    + tail->Some_0);
            }
        }
        pos = pos + 24 + path_len + data_len;
        remaining = remaining - 1;
    }
    if pos != blob.len() {
        proof {
            assert(parse_entries(blob@, pos as int, 0) is None);
        }
        return None;
    }
    proof {
        assert(parse_entries(blob@, pos as int, 0) == Some(Seq::<(Seq<u8>, u64, Seq<u8>)>::empty()));
        assert(entry_views(out@) + Seq::<(Seq<u8>, u64, Seq<u8>)>::empty() =~= entry_views(out@));
    }
    Some(out)
}

/// Copies the bytes of `v` between `from` and `to`.
fn slice_to_vec_range(v: &Vec<u8>, from: usize, to: usize) -> (r: Vec<u8>)
    requires
        from <= to <= v@.len(),
    ensures
        r@ == v@.subrange(from as int, to as int),
{
    let mut r: Vec<u8> = Vec::new();
    let mut i: usize = from;
    while i < to
        invariant
            from <= i <= to <= v@.len(),
            r@ == v@.subrange(from as int, i as int),
        decreases to - i,
    {
        r.push(v[i]);
        proof {
            assert(v@.subrange(from as int, i as int + 1) =~= v@.subrange(
                from as int,
                i as int,
            ).push(v@[i as int]));
        }
        i = i + 1;
    }
    r
}

/// The codec round trip: a blob framed from any entries decodes back
/// to exactly those entries. The bundle is deterministic — the same
/// ranges give the same blob — because the framing is a function of
/// the entries alone.
pub proof fn lemma_hotcache_round_trip(entries: Seq<(Seq<u8>, u64, Seq<u8>)>)
    requires
        entries.len() <= u64::MAX,
        forall|i: int| 0 <= i < entries.len() ==> (#[trigger] entries[i]).0.len() <= u64::MAX,
        forall|i: int| 0 <= i < entries.len() ==> (#[trigger] entries[i]).2.len() <= u64::MAX,
    ensures
        decode_blob(encode_blob(entries)) == Some(entries),
{
    lemma_auto_spec_u64_to_from_le_bytes();
    let blob = encode_blob(entries);
    assert(blob.subrange(0, 8) =~= spec_u64_to_le_bytes(entries.len() as u64));
    lemma_parse_encoded(entries, Seq::empty());
    assert(Seq::<u8>::empty() + encode_entries(entries) =~= encode_entries(entries));
    assert(spec_u64_to_le_bytes(entries.len() as u64) + encode_entries(entries) == blob);
    assert(blob.subrange(8, blob.len() as int) =~= encode_entries(entries));
    lemma_parse_shift(entries, blob, 8);
}

/// Splitting the frames off the front: the entry list also encodes
/// head first.
proof fn lemma_encode_head(entries: Seq<(Seq<u8>, u64, Seq<u8>)>)
    requires
        entries.len() > 0,
    ensures
        encode_entries(entries) == encode_entry(entries[0]) + encode_entries(entries.drop_first()),
    decreases entries.len(),
{
    if entries.len() == 1 {
        assert(entries.drop_last() =~= Seq::<(Seq<u8>, u64, Seq<u8>)>::empty());
        assert(entries.drop_first() =~= Seq::<(Seq<u8>, u64, Seq<u8>)>::empty());
        assert(encode_entries(entries) =~= encode_entry(entries[0]) + encode_entries(
            entries.drop_first(),
        ));
    } else {
        lemma_encode_head(entries.drop_last());
        assert(entries.drop_last()[0] == entries[0]);
        assert(entries.drop_first().drop_last() =~= entries.drop_last().drop_first());
        assert(entries.drop_first().last() == entries.last());
        assert(encode_entries(entries) == encode_entries(entries.drop_last()) + encode_entry(
            entries.last(),
        ));
        assert(encode_entries(entries.drop_first()) == encode_entries(
            entries.drop_first().drop_last(),
        ) + encode_entry(entries.drop_first().last()));
        assert(encode_entries(entries) =~= encode_entry(entries[0]) + encode_entries(
            entries.drop_first(),
        ));
    }
}

/// Parsing the concatenated frames of `entries` at the tail of any
/// prefix gives the entries back.
proof fn lemma_parse_encoded(entries: Seq<(Seq<u8>, u64, Seq<u8>)>, prefix: Seq<u8>)
    requires
        forall|i: int| 0 <= i < entries.len() ==> (#[trigger] entries[i]).0.len() <= u64::MAX,
        forall|i: int| 0 <= i < entries.len() ==> (#[trigger] entries[i]).2.len() <= u64::MAX,
    ensures
        parse_entries(
            prefix + encode_entries(entries),
            prefix.len() as int,
            entries.len() as int,
        ) == Some(entries),
    decreases entries.len(),
{
    lemma_auto_spec_u64_to_from_le_bytes();
    let blob = prefix + encode_entries(entries);
    let pos = prefix.len() as int;
    if entries.len() == 0 {
        assert(encode_entries(entries) =~= Seq::<u8>::empty());
        assert(blob.len() == pos);
        assert(parse_entries(blob, pos, 0) == Some(Seq::<(Seq<u8>, u64, Seq<u8>)>::empty()));
        assert(entries =~= Seq::<(Seq<u8>, u64, Seq<u8>)>::empty());
    } else {
        let e = entries[0];
        lemma_encode_head(entries);
        let head = encode_entry(e);
        let tail = encode_entries(entries.drop_first());
        assert(blob =~= (prefix + head) + tail);
        lemma_parse_encoded(entries.drop_first(), prefix + head);
        let plen = e.0.len() as int;
        let dlen = e.2.len() as int;
        assert(head.len() == 24 + plen + dlen);
        // the parser reads back what the frame laid down, field by field
        assert(blob.subrange(pos, pos + 8) =~= spec_u64_to_le_bytes(e.0.len() as u64));
        assert(blob.subrange(pos + 8, pos + 8 + plen) =~= e.0);
        assert(blob.subrange(pos + 8 + plen, pos + 16 + plen) =~= spec_u64_to_le_bytes(e.1));
        assert(blob.subrange(pos + 16 + plen, pos + 24 + plen) =~= spec_u64_to_le_bytes(
            dlen as u64,
        ));
        assert(blob.subrange(pos + 24 + plen, pos + 24 + plen + dlen) =~= e.2);
        assert(parse_entries(blob, pos + 24 + plen + dlen, entries.len() as int - 1) == Some(
            entries.drop_first(),
        ));
        assert(seq![(e.0, e.1, e.2)] + entries.drop_first() =~= entries);
        assert((e.0, e.1, e.2) == e);
    }
}

/// Renaming the parse start: parsing from position 8 of the blob is
/// parsing the suffix after the count.
proof fn lemma_parse_shift(entries: Seq<(Seq<u8>, u64, Seq<u8>)>, blob: Seq<u8>, pos: int)
    requires
        0 <= pos <= blob.len(),
        blob.subrange(pos, blob.len() as int) == encode_entries(entries),
        forall|i: int| 0 <= i < entries.len() ==> (#[trigger] entries[i]).0.len() <= u64::MAX,
        forall|i: int| 0 <= i < entries.len() ==> (#[trigger] entries[i]).2.len() <= u64::MAX,
    ensures
        parse_entries(blob, pos, entries.len() as int) == Some(entries),
{
    let prefix = blob.subrange(0, pos);
    assert(blob =~= prefix + encode_entries(entries));
    lemma_parse_encoded(entries, prefix);
}

} // verus!
