//! The bytes of a map file, and the proof that reading them gives the map
//! back.

use crate::uth_map::{
    distinct_keys, has_key, insert_first, magic, spec_block, spec_blocks, spec_byte, spec_cells,
    spec_flags, spec_map, spec_text, spec_values, spec_word, BlockModel, MapError, MapModel,
};
use crate::wire::{
    be_u32_bytes, has_terminator, is_terminator_at, lemma_be_u32_round_trip,
    lemma_terminator_unique, terminator,
};
use vstd::prelude::*;
use vstd::utf8::{
    encode_scalar, encode_utf8, encode_utf8_decode_utf8, encode_utf8_valid_utf8,
    has_width_1_encoding,
};

verus! {

/// A text that a map file can hold: no character of it is the zero
/// character, which ends a string.
pub open spec fn text_ok(t: Seq<char>) -> bool {
    forall|i: int| 0 <= i < t.len() ==> t[i] as u32 != 0
}

/// A palette entry that a map file can hold: its counts fit their bytes,
/// its texts hold no zero character, and no key occurs twice.
pub open spec fn block_ok(b: BlockModel) -> bool {
    &&& text_ok(b.res)
    &&& b.flags.len() <= u8::MAX
    &&& forall|i: int| 0 <= i < b.flags.len() ==> text_ok(#[trigger] b.flags[i])
    &&& b.values.len() <= u8::MAX
    &&& forall|i: int| 0 <= i < b.values.len() ==> text_ok((#[trigger] b.values[i]).0)
    &&& distinct_keys(b.values)
}

/// A map that a map file can hold.
pub open spec fn map_ok(m: MapModel) -> bool {
    &&& m.wf()
    &&& m.blocks.len() <= u32::MAX
    &&& forall|i: int| 0 <= i < m.blocks.len() ==> block_ok(#[trigger] m.blocks[i])
}

/// A string as the file holds it: its UTF-8 bytes and a zero byte.
pub open spec fn text_bytes(t: Seq<char>) -> Seq<u8> {
    encode_utf8(t).push(0u8)
}

/// Strings one after the other.
pub open spec fn flags_bytes(flags: Seq<Seq<char>>) -> Seq<u8>
    decreases flags.len(),
{
    if flags.len() == 0 {
        Seq::empty()
    } else {
        text_bytes(flags.first()) + flags_bytes(flags.drop_first())
    }
}

/// Key/value pairs one after the other, each a key and four bytes of value.
pub open spec fn values_bytes(values: Seq<(Seq<char>, u32)>) -> Seq<u8>
    decreases values.len(),
{
    if values.len() == 0 {
        Seq::empty()
    } else {
        text_bytes(values.first().0) + be_u32_bytes(values.first().1) + values_bytes(
            values.drop_first(),
        )
    }
}

/// A palette entry as the file holds it.
pub open spec fn block_bytes(b: BlockModel) -> Seq<u8> {
    seq![b.flags.len() as u8, b.values.len() as u8, b.bounding] + text_bytes(b.res) + flags_bytes(
        b.flags,
    ) + values_bytes(b.values)
}

/// Palette entries one after the other.
pub open spec fn blocks_bytes(blocks: Seq<BlockModel>) -> Seq<u8>
    decreases blocks.len(),
{
    if blocks.len() == 0 {
        Seq::empty()
    } else {
        block_bytes(blocks.first()) + blocks_bytes(blocks.drop_first())
    }
}

/// Palette indices one after the other.
pub open spec fn cells_bytes(cells: Seq<u32>) -> Seq<u8>
    decreases cells.len(),
{
    if cells.len() == 0 {
        Seq::empty()
    } else {
        be_u32_bytes(cells.first()) + cells_bytes(cells.drop_first())
    }
}

/// The start of a map file: the magic bytes, the number of palette entries,
/// the width and the height.
pub open spec fn head_bytes(count: u32, width: u32, height: u32) -> Seq<u8> {
    magic() + be_u32_bytes(count) + be_u32_bytes(width) + be_u32_bytes(height)
}

/// A map as the file holds it.
pub open spec fn map_bytes(m: MapModel) -> Seq<u8> {
    head_bytes(m.blocks.len() as u32, m.width, m.height) + blocks_bytes(m.blocks) + cells_bytes(
        m.cells,
    )
}

proof fn lemma_or_is_not_zero(high: u8, low: u8)
    by (bit_vector)
    requires
        high != 0,
    ensures
        high | low != 0,
{
}

proof fn lemma_low_bits(v: u32)
    by (bit_vector)
    requires
        0 < v <= 0x7F,
    ensures
        (v & 0x7F) as u8 != 0,
{
}

/// The encoding of a character other than the zero character holds no
/// zero byte.
proof fn lemma_scalar_has_no_zero(v: u32)
    requires
        v != 0,
    ensures
        forall|i: int| 0 <= i < encode_scalar(v).len() ==> encode_scalar(v)[i] != 0,
{
    if has_width_1_encoding(v) {
        lemma_low_bits(v);
    } else {
        lemma_or_is_not_zero(0xC0, ((v >> 6) & 0x1F) as u8);
        lemma_or_is_not_zero(0xE0, ((v >> 12) & 0x0F) as u8);
        lemma_or_is_not_zero(0xF0, ((v >> 18) & 0x7) as u8);
        lemma_or_is_not_zero(0x80, (v & 0x3F) as u8);
        lemma_or_is_not_zero(0x80, ((v >> 6) & 0x3F) as u8);
        lemma_or_is_not_zero(0x80, ((v >> 12) & 0x3F) as u8);
    }
}

/// The encoding of a text without a zero character holds no zero byte.
pub proof fn lemma_text_has_no_zero(t: Seq<char>)
    requires
        text_ok(t),
    ensures
        forall|i: int| 0 <= i < encode_utf8(t).len() ==> encode_utf8(t)[i] != 0,
    decreases t.len(),
{
    if t.len() > 0 {
        let head = encode_scalar(t[0] as u32);
        let tail = t.drop_first();
        let rest = encode_utf8(tail);
        assert(text_ok(tail)) by {
            assert forall|i: int| 0 <= i < tail.len() implies tail[i] as u32 != 0 by {
                assert(tail[i] == t[i + 1]);
            }
        }
        lemma_scalar_has_no_zero(t[0] as u32);
        lemma_text_has_no_zero(tail);
        assert forall|i: int| 0 <= i < encode_utf8(t).len() implies encode_utf8(t)[i] != 0 by {
            if i < head.len() {
                assert(encode_utf8(t)[i] == head[i]);
            } else {
                assert(encode_utf8(t)[i] == rest[i - head.len()]);
            }
        }
    }
}

/// A string that was written is read back, and what follows it is left.
pub proof fn lemma_text_round_trip(t: Seq<char>, rest: Seq<u8>)
    requires
        text_ok(t),
    ensures
        spec_text(text_bytes(t) + rest) == Ok::<(Seq<char>, Seq<u8>), MapError>((t, rest)),
{
    let e = encode_utf8(t);
    let s = text_bytes(t) + rest;
    lemma_text_has_no_zero(t);
    assert(is_terminator_at(s, e.len() as int));
    lemma_terminator_unique(s, e.len() as int);
    assert(s.take(e.len() as int) =~= e);
    assert(s.skip(e.len() as int + 1) =~= rest);
    encode_utf8_valid_utf8(t);
    encode_utf8_decode_utf8(t);
}

/// A number that was written is read back, and what follows it is left.
pub proof fn lemma_word_round_trip(v: u32, rest: Seq<u8>)
    ensures
        spec_word(be_u32_bytes(v) + rest) == Some((v, rest)),
{
    let s = be_u32_bytes(v) + rest;
    lemma_be_u32_round_trip(v);
    assert(s.take(4) =~= be_u32_bytes(v));
    assert(s.skip(4) =~= rest);
}

/// Flags that were written are read back in their order.
pub proof fn lemma_flags_round_trip(flags: Seq<Seq<char>>, rest: Seq<u8>, acc: Seq<Seq<char>>)
    requires
        forall|i: int| 0 <= i < flags.len() ==> text_ok(#[trigger] flags[i]),
    ensures
        spec_flags(flags_bytes(flags) + rest, flags.len(), acc) == Ok::<
            (Seq<Seq<char>>, Seq<u8>),
            MapError,
        >((acc + flags, rest)),
    decreases flags.len(),
{
    if flags.len() == 0 {
        assert(flags_bytes(flags) + rest =~= rest);
        assert(acc + flags =~= acc);
    } else {
        let tail = flags.drop_first();
        let after = flags_bytes(tail) + rest;
        assert(flags_bytes(flags) + rest =~= text_bytes(flags.first()) + after);
        lemma_text_round_trip(flags.first(), after);
        lemma_flags_round_trip(tail, rest, acc.push(flags.first()));
        assert(acc.push(flags.first()) + tail =~= acc + flags);
    }
}

/// Key/value pairs that were written are read back in their order, where
/// no key occurs twice.
pub proof fn lemma_values_round_trip(
    values: Seq<(Seq<char>, u32)>,
    rest: Seq<u8>,
    acc: Seq<(Seq<char>, u32)>,
)
    requires
        forall|i: int| 0 <= i < values.len() ==> text_ok((#[trigger] values[i]).0),
        distinct_keys(acc + values),
    ensures
        spec_values(values_bytes(values) + rest, values.len(), acc) == Ok::<
            (Seq<(Seq<char>, u32)>, Seq<u8>),
            MapError,
        >((acc + values, rest)),
    decreases values.len(),
{
    if values.len() == 0 {
        assert(values_bytes(values) + rest =~= rest);
        assert(acc + values =~= acc);
    } else {
        let (key, bits) = values.first();
        let tail = values.drop_first();
        let after = values_bytes(tail) + rest;
        let after_key = be_u32_bytes(bits) + after;
        assert(values_bytes(values) + rest =~= text_bytes(key) + after_key);
        lemma_text_round_trip(key, after_key);
        lemma_word_round_trip(bits, after);
        assert(!has_key(acc, key)) by {
            if has_key(acc, key) {
                let i = choose|i: int| 0 <= i < acc.len() && (#[trigger] acc[i]).0 == key;
                assert((acc + values)[i] == acc[i]);
                assert((acc + values)[acc.len() as int] == values.first());
            }
        }
        assert(acc.push(values.first()) + tail =~= acc + values);
        assert(insert_first(acc, key, bits) == acc.push(values.first()));
        lemma_values_round_trip(tail, rest, acc.push(values.first()));
    }
}

/// What `spec_block` makes of bytes whose parts are read as given.
proof fn lemma_block_from_parts(
    s: Seq<u8>,
    b: BlockModel,
    s3: Seq<u8>,
    s4: Seq<u8>,
    s5: Seq<u8>,
    s6: Seq<u8>,
)
    requires
        b.flags.len() <= u8::MAX,
        b.values.len() <= u8::MAX,
        s.len() >= 3,
        s[0] == b.flags.len() as u8,
        s[1] == b.values.len() as u8,
        s[2] == b.bounding,
        s.skip(3) == s3,
        spec_text(s3) == Ok::<(Seq<char>, Seq<u8>), MapError>((b.res, s4)),
        spec_flags(s4, b.flags.len(), Seq::empty()) == Ok::<(Seq<Seq<char>>, Seq<u8>), MapError>(
            (b.flags, s5),
        ),
        spec_values(s5, b.values.len(), Seq::empty()) == Ok::<
            (Seq<(Seq<char>, u32)>, Seq<u8>),
            MapError,
        >((b.values, s6)),
    ensures
        spec_block(s) == Ok::<(BlockModel, Seq<u8>), MapError>((b, s6)),
{
    assert(s.skip(1).skip(1).skip(1) =~= s.skip(3));
    assert(spec_byte(s) == Some((s[0], s.skip(1))));
    assert(spec_byte(s.skip(1)) == Some((s[1], s.skip(1).skip(1))));
    assert(spec_byte(s.skip(1).skip(1)) == Some((s[2], s3)));
}

/// A palette entry that was written is read back.
pub proof fn lemma_block_round_trip(b: BlockModel, rest: Seq<u8>)
    requires
        block_ok(b),
    ensures
        spec_block(block_bytes(b) + rest) == Ok::<(BlockModel, Seq<u8>), MapError>((b, rest)),
{
    let s = block_bytes(b) + rest;
    let counts = seq![b.flags.len() as u8, b.values.len() as u8, b.bounding];
    let after_flags = values_bytes(b.values) + rest;
    let after_res = flags_bytes(b.flags) + after_flags;
    let after_counts = text_bytes(b.res) + after_res;
    assert(s =~= counts + after_counts);
    assert(s.skip(3) =~= after_counts);
    lemma_text_round_trip(b.res, after_res);
    assert(spec_flags(after_res, b.flags.len(), Seq::empty()) == Ok::<
        (Seq<Seq<char>>, Seq<u8>),
        MapError,
    >((b.flags, after_flags))) by {
        lemma_flags_round_trip(b.flags, after_flags, Seq::empty());
        assert(Seq::<Seq<char>>::empty() + b.flags =~= b.flags);
    }
    assert(spec_values(after_flags, b.values.len(), Seq::empty()) == Ok::<
        (Seq<(Seq<char>, u32)>, Seq<u8>),
        MapError,
    >((b.values, rest))) by {
        assert(Seq::<(Seq<char>, u32)>::empty() + b.values =~= b.values);
        lemma_values_round_trip(b.values, rest, Seq::empty());
    }
    lemma_block_from_parts(s, b, after_counts, after_res, after_flags, rest);
}

/// Palette entries that were written are read back in their order.
pub proof fn lemma_blocks_round_trip(blocks: Seq<BlockModel>, rest: Seq<u8>, acc: Seq<BlockModel>)
    requires
        forall|i: int| 0 <= i < blocks.len() ==> block_ok(#[trigger] blocks[i]),
    ensures
        spec_blocks(blocks_bytes(blocks) + rest, blocks.len(), acc) == Ok::<
            (Seq<BlockModel>, Seq<u8>),
            MapError,
        >((acc + blocks, rest)),
    decreases blocks.len(),
{
    if blocks.len() == 0 {
        assert(blocks_bytes(blocks) + rest =~= rest);
        assert(acc + blocks =~= acc);
    } else {
        let tail = blocks.drop_first();
        let after = blocks_bytes(tail) + rest;
        assert(blocks_bytes(blocks) + rest =~= block_bytes(blocks.first()) + after);
        lemma_block_round_trip(blocks.first(), after);
        lemma_blocks_round_trip(tail, rest, acc.push(blocks.first()));
        assert(acc.push(blocks.first()) + tail =~= acc + blocks);
    }
}

/// Palette indices that were written are read back in their order,
/// whatever follows them.
pub proof fn lemma_cells_round_trip(cells: Seq<u32>, rest: Seq<u8>, acc: Seq<u32>)
    ensures
        spec_cells(cells_bytes(cells) + rest, cells.len(), acc) == Ok::<Seq<u32>, MapError>(
            acc + cells,
        ),
    decreases cells.len(),
{
    if cells.len() == 0 {
        assert(acc + cells =~= acc);
    } else {
        let tail = cells.drop_first();
        let after = cells_bytes(tail) + rest;
        assert(cells_bytes(cells) + rest =~= be_u32_bytes(cells.first()) + after);
        lemma_word_round_trip(cells.first(), after);
        lemma_cells_round_trip(tail, rest, acc.push(cells.first()));
        assert(acc.push(cells.first()) + tail =~= acc + cells);
    }
}

/// The start of a map file that was written is read back, and what follows
/// it is left.
proof fn lemma_head_round_trip(count: u32, width: u32, height: u32, rest: Seq<u8>) -> (parts: (
    Seq<u8>,
    Seq<u8>,
))
    ensures
        ({
            let s = head_bytes(count, width, height) + rest;
            &&& s.len() >= 3
            &&& s.take(3) == magic()
            &&& spec_word(s.skip(3)) == Some((count, parts.0))
            &&& spec_word(parts.0) == Some((width, parts.1))
            &&& spec_word(parts.1) == Some((height, rest))
        }),
{
    let s = head_bytes(count, width, height) + rest;
    let after_width = be_u32_bytes(height) + rest;
    let after_count = be_u32_bytes(width) + after_width;
    assert(s.take(3) =~= magic());
    assert(s.skip(3) =~= be_u32_bytes(count) + after_count);
    lemma_word_round_trip(count, after_count);
    lemma_word_round_trip(width, after_width);
    lemma_word_round_trip(height, rest);
    (after_count, after_width)
}

/// What `spec_map` makes of bytes whose parts are read as given.
proof fn lemma_map_from_parts(
    s: Seq<u8>,
    count: u32,
    width: u32,
    height: u32,
    blocks: Seq<BlockModel>,
    cells: Seq<u32>,
    s1: Seq<u8>,
    s2: Seq<u8>,
    s3: Seq<u8>,
    s4: Seq<u8>,
)
    requires
        s.len() >= 3,
        s.take(3) == magic(),
        spec_word(s.skip(3)) == Some((count, s1)),
        spec_word(s1) == Some((width, s2)),
        spec_word(s2) == Some((height, s3)),
        spec_blocks(s3, count as nat, Seq::empty()) == Ok::<(Seq<BlockModel>, Seq<u8>), MapError>(
            (blocks, s4),
        ),
        spec_cells(s4, (width as nat) * (height as nat), Seq::empty()) == Ok::<
            Seq<u32>,
            MapError,
        >(cells),
    ensures
        spec_map(s) == Ok::<MapModel, MapError>(MapModel { width, height, blocks, cells }),
{
}

/// Four sequences in a row are the same however they are grouped.
proof fn lemma_sum_of_four(a: Seq<u8>, b: Seq<u8>, c: Seq<u8>, d: Seq<u8>)
    ensures
        ((a + b) + c) + d == a + (b + (c + d)),
        (a + b) + c == a + (b + c),
{
    assert(((a + b) + c) + d =~= a + (b + (c + d)));
    assert((a + b) + c =~= a + (b + c));
}

/// A map whose parts were written one after the other is read back.
proof fn lemma_map_of_parts_round_trip(
    m: MapModel,
    s: Seq<u8>,
    after_head: Seq<u8>,
    after_blocks: Seq<u8>,
)
    requires
        map_ok(m),
        s == head_bytes(m.blocks.len() as u32, m.width, m.height) + after_head,
        after_head == blocks_bytes(m.blocks) + after_blocks,
        exists|extra: Seq<u8>| after_blocks == cells_bytes(m.cells) + extra,
    ensures
        spec_map(s) == Ok::<MapModel, MapError>(m),
{
    let count = m.blocks.len() as u32;
    let extra = choose|extra: Seq<u8>| after_blocks == cells_bytes(m.cells) + extra;
    let parts = lemma_head_round_trip(count, m.width, m.height, after_head);
    assert(spec_blocks(after_head, count as nat, Seq::empty()) == Ok::<
        (Seq<BlockModel>, Seq<u8>),
        MapError,
    >((m.blocks, after_blocks))) by {
        lemma_blocks_round_trip(m.blocks, after_blocks, Seq::empty());
        assert(Seq::<BlockModel>::empty() + m.blocks =~= m.blocks);
    }
    assert(spec_cells(after_blocks, (m.width as nat) * (m.height as nat), Seq::empty()) == Ok::<
        Seq<u32>,
        MapError,
    >(m.cells)) by {
        lemma_cells_round_trip(m.cells, extra, Seq::empty());
        assert(Seq::<u32>::empty() + m.cells =~= m.cells);
    }
    lemma_map_from_parts(
        s,
        count,
        m.width,
        m.height,
        m.blocks,
        m.cells,
        parts.0,
        parts.1,
        after_head,
        after_blocks,
    );
}

/// A map that was written is read back as it was: the same size, the same
/// palette, the same grid. Bytes that follow the map do not matter.
pub proof fn lemma_map_round_trip(m: MapModel, extra: Seq<u8>)
    requires
        map_ok(m),
    ensures
        spec_map(map_bytes(m) + extra) == Ok::<MapModel, MapError>(m),
{
    let head = head_bytes(m.blocks.len() as u32, m.width, m.height);
    let blocks = blocks_bytes(m.blocks);
    let cells = cells_bytes(m.cells);
    lemma_sum_of_four(head, blocks, cells, extra);
    lemma_map_of_parts_round_trip(
        m,
        map_bytes(m) + extra,
        blocks + (cells + extra),
        cells + extra,
    );
}

/// The first `n` bytes of `a + b`: a part of `a`, or all of `a` and a part
/// of `b`.
proof fn lemma_take_of_sum(a: Seq<u8>, b: Seq<u8>, n: int)
    requires
        0 <= n <= a.len() + b.len(),
    ensures
        n <= a.len() ==> (a + b).take(n) == a.take(n),
        n >= a.len() ==> (a + b).take(n) == a + b.take(n - a.len()),
{
    if n <= a.len() {
        assert((a + b).take(n) =~= a.take(n));
    }
    if n >= a.len() {
        assert((a + b).take(n) =~= a + b.take(n - a.len()));
    }
}

/// A string that is cut short has no terminator.
proof fn lemma_text_cut(t: Seq<char>, n: int)
    requires
        text_ok(t),
        0 <= n < text_bytes(t).len(),
    ensures
        spec_text(text_bytes(t).take(n)) == Err::<(Seq<char>, Seq<u8>), MapError>(
            MapError::MissingTerminator,
        ),
{
    let cut = text_bytes(t).take(n);
    lemma_text_has_no_zero(t);
    if has_terminator(cut) {
        let at = terminator(cut);
        assert(is_terminator_at(cut, at));
        assert(cut[at] == encode_utf8(t)[at]);
    }
}

/// A number that is cut short is not read.
proof fn lemma_word_cut(v: u32, n: int)
    requires
        0 <= n < 4,
    ensures
        spec_word(be_u32_bytes(v).take(n)) is None,
{
}

/// Flags that are cut short are not read.
proof fn lemma_flags_cut(flags: Seq<Seq<char>>, n: int, acc: Seq<Seq<char>>)
    requires
        forall|i: int| 0 <= i < flags.len() ==> text_ok(#[trigger] flags[i]),
        0 <= n < flags_bytes(flags).len(),
    ensures
        spec_flags(flags_bytes(flags).take(n), flags.len(), acc) is Err,
    decreases flags.len(),
{
    if flags.len() > 0 {
        let head = text_bytes(flags.first());
        let tail = flags.drop_first();
        lemma_take_of_sum(head, flags_bytes(tail), n);
        if n < head.len() {
            lemma_text_cut(flags.first(), n);
        } else {
            let rest = flags_bytes(tail).take(n - head.len());
            lemma_text_round_trip(flags.first(), rest);
            lemma_flags_cut(tail, n - head.len(), acc.push(flags.first()));
        }
    }
}

/// Key/value pairs that are cut short are not read.
proof fn lemma_values_cut(values: Seq<(Seq<char>, u32)>, n: int, acc: Seq<(Seq<char>, u32)>)
    requires
        forall|i: int| 0 <= i < values.len() ==> text_ok((#[trigger] values[i]).0),
        0 <= n < values_bytes(values).len(),
    ensures
        spec_values(values_bytes(values).take(n), values.len(), acc) is Err,
    decreases values.len(),
{
    if values.len() > 0 {
        let (key, bits) = values.first();
        let head = text_bytes(key);
        let word = be_u32_bytes(bits);
        let tail = values.drop_first();
        let after_key = word + values_bytes(tail);
        assert(values_bytes(values) =~= head + after_key);
        lemma_take_of_sum(head, after_key, n);
        if n < head.len() {
            lemma_text_cut(key, n);
        } else {
            let m = n - head.len();
            lemma_text_round_trip(key, after_key.take(m));
            lemma_take_of_sum(word, values_bytes(tail), m);
            if m < 4 {
                lemma_word_cut(bits, m);
            } else {
                let rest = values_bytes(tail).take(m - 4);
                lemma_word_round_trip(bits, rest);
                lemma_values_cut(tail, m - 4, insert_first(acc, key, bits));
            }
        }
    }
}

/// A palette entry that is cut short is not read.
proof fn lemma_block_cut(b: BlockModel, n: int)
    requires
        block_ok(b),
        0 <= n < block_bytes(b).len(),
    ensures
        spec_block(block_bytes(b).take(n)) is Err,
{
    let counts = seq![b.flags.len() as u8, b.values.len() as u8, b.bounding];
    let res = text_bytes(b.res);
    let flags = flags_bytes(b.flags);
    let values = values_bytes(b.values);
    let after_res = flags + values;
    let after_counts = res + after_res;
    let cut = block_bytes(b).take(n);
    assert(block_bytes(b) =~= counts + after_counts);
    lemma_take_of_sum(counts, after_counts, n);
    if n < 3 {
        assert(cut =~= counts.take(n));
        if n == 2 {
            assert(cut.skip(1).skip(1).len() == 0);
        } else if n == 1 {
            assert(cut.skip(1).len() == 0);
        }
    } else {
        let m = n - 3;
        let tail = after_counts.take(m);
        assert(cut =~= counts + tail);
        assert(cut.skip(1).skip(1).skip(1) =~= tail);
        assert(spec_byte(cut) == Some((b.flags.len() as u8, cut.skip(1))));
        assert(spec_byte(cut.skip(1)) == Some((b.values.len() as u8, cut.skip(1).skip(1))));
        assert(spec_byte(cut.skip(1).skip(1)) == Some((b.bounding, tail)));
        lemma_take_of_sum(res, after_res, m);
        if m < res.len() {
            lemma_text_cut(b.res, m);
        } else {
            let k = m - res.len();
            lemma_text_round_trip(b.res, after_res.take(k));
            lemma_take_of_sum(flags, values, k);
            if k < flags.len() {
                lemma_flags_cut(b.flags, k, Seq::empty());
            } else {
                let rest = values.take(k - flags.len());
                lemma_flags_round_trip(b.flags, rest, Seq::empty());
                lemma_values_cut(b.values, k - flags.len(), Seq::empty());
            }
        }
    }
}

/// Palette entries that are cut short are not read.
proof fn lemma_blocks_cut(blocks: Seq<BlockModel>, n: int, acc: Seq<BlockModel>)
    requires
        forall|i: int| 0 <= i < blocks.len() ==> block_ok(#[trigger] blocks[i]),
        0 <= n < blocks_bytes(blocks).len(),
    ensures
        spec_blocks(blocks_bytes(blocks).take(n), blocks.len(), acc) is Err,
    decreases blocks.len(),
{
    if blocks.len() > 0 {
        let head = block_bytes(blocks.first());
        let tail = blocks.drop_first();
        let tail_bytes = blocks_bytes(tail);
        lemma_take_of_sum(head, tail_bytes, n);
        if n < head.len() {
            lemma_block_cut(blocks.first(), n);
        } else {
            let rest = tail_bytes.take(n - head.len());
            lemma_block_round_trip(blocks.first(), rest);
            lemma_blocks_cut(tail, n - head.len(), acc.push(blocks.first()));
        }
    }
}

/// Palette indices that are cut short are not read.
proof fn lemma_cells_cut(cells: Seq<u32>, n: int, acc: Seq<u32>)
    requires
        0 <= n < cells_bytes(cells).len(),
    ensures
        spec_cells(cells_bytes(cells).take(n), cells.len(), acc) is Err,
    decreases cells.len(),
{
    if cells.len() > 0 {
        let head = be_u32_bytes(cells.first());
        let tail = cells.drop_first();
        lemma_take_of_sum(head, cells_bytes(tail), n);
        if n < 4 {
            lemma_word_cut(cells.first(), n);
        } else {
            let rest = cells_bytes(tail).take(n - 4);
            lemma_word_round_trip(cells.first(), rest);
            lemma_cells_cut(tail, n - 4, acc.push(cells.first()));
        }
    }
}

/// The start of a map file that is cut short is not read.
proof fn lemma_head_cut(count: u32, width: u32, height: u32, n: int)
    requires
        0 <= n < 15,
    ensures
        spec_map(head_bytes(count, width, height).take(n)) is Err,
{
    let head = head_bytes(count, width, height);
    let cut = head.take(n);
    if n >= 3 {
        let after_count = be_u32_bytes(width) + be_u32_bytes(height);
        let after_magic = be_u32_bytes(count) + after_count;
        assert(head =~= magic() + after_magic);
        assert(cut.take(3) =~= magic());
        lemma_take_of_sum(magic(), after_magic, n);
        assert(cut.skip(3) =~= after_magic.take(n - 3));
        lemma_take_of_sum(be_u32_bytes(count), after_count, n - 3);
        if n >= 7 {
            let s1 = after_count.take(n - 7);
            lemma_word_round_trip(count, s1);
            lemma_take_of_sum(be_u32_bytes(width), be_u32_bytes(height), n - 7);
            if n >= 11 {
                let s2 = be_u32_bytes(height).take(n - 11);
                lemma_word_round_trip(width, s2);
            }
        }
    }
}

/// A map file that is cut short, wherever, is not read as a map: reading it
/// ends in an error.
pub proof fn lemma_cut_map_is_refused(m: MapModel, n: int)
    requires
        map_ok(m),
        0 <= n < map_bytes(m).len(),
    ensures
        spec_map(map_bytes(m).take(n)) is Err,
{
    let count = m.blocks.len() as u32;
    let head = head_bytes(count, m.width, m.height);
    let blocks = blocks_bytes(m.blocks);
    let cells = cells_bytes(m.cells);
    let after_head = blocks + cells;
    let cut = map_bytes(m).take(n);
    assert(map_bytes(m) =~= head + after_head);
    lemma_take_of_sum(head, after_head, n);
    if n < 15 {
        lemma_head_cut(count, m.width, m.height, n);
    } else {
        let k = n - 15;
        let tail = after_head.take(k);
        assert(cut == head + tail);
        let parts = lemma_head_round_trip(count, m.width, m.height, tail);
        lemma_take_of_sum(blocks, cells, k);
        let s1 = parts.0;
        let s2 = parts.1;
        if k < blocks.len() {
            lemma_blocks_cut(m.blocks, k, Seq::empty());
            lemma_map_refused_in_blocks(cut, count, m.width, m.height, s1, s2, tail);
        } else {
            let rest = cells.take(k - blocks.len());
            lemma_blocks_round_trip(m.blocks, rest, Seq::empty());
            assert(Seq::<BlockModel>::empty() + m.blocks =~= m.blocks);
            lemma_cells_cut(m.cells, k - blocks.len(), Seq::empty());
            lemma_map_refused_in_cells(cut, count, m.width, m.height, m.blocks, s1, s2, tail, rest);
        }
    }
}

/// `spec_map` fails where the palette is not read.
proof fn lemma_map_refused_in_blocks(
    s: Seq<u8>,
    count: u32,
    width: u32,
    height: u32,
    s1: Seq<u8>,
    s2: Seq<u8>,
    s3: Seq<u8>,
)
    requires
        s.len() >= 3,
        s.take(3) == magic(),
        spec_word(s.skip(3)) == Some((count, s1)),
        spec_word(s1) == Some((width, s2)),
        spec_word(s2) == Some((height, s3)),
        spec_blocks(s3, count as nat, Seq::empty()) is Err,
    ensures
        spec_map(s) is Err,
{
}

/// `spec_map` fails where the grid is not read.
proof fn lemma_map_refused_in_cells(
    s: Seq<u8>,
    count: u32,
    width: u32,
    height: u32,
    blocks: Seq<BlockModel>,
    s1: Seq<u8>,
    s2: Seq<u8>,
    s3: Seq<u8>,
    s4: Seq<u8>,
)
    requires
        s.len() >= 3,
        s.take(3) == magic(),
        spec_word(s.skip(3)) == Some((count, s1)),
        spec_word(s1) == Some((width, s2)),
        spec_word(s2) == Some((height, s3)),
        spec_blocks(s3, count as nat, Seq::empty()) == Ok::<(Seq<BlockModel>, Seq<u8>), MapError>(
            (blocks, s4),
        ),
        spec_cells(s4, (width as nat) * (height as nat), Seq::empty()) is Err,
    ensures
        spec_map(s) is Err,
{
}

} // verus!
