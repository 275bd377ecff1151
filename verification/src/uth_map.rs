//! The tile-map file: a palette of block descriptions and a grid of palette
//! indices.
//!
//! Layout, every multi-byte number big-endian:
//!
//! 1. the three bytes `uth`;
//! 2. the number of palette entries (u32), the width (u32), the height (u32);
//! 3. the palette entries, each: flag count (u8), key/value count (u8),
//!    bounding byte (u8), the resource id, the flags, then the key/value
//!    pairs, each a key followed by four bytes of value;
//! 4. width × height palette indices (u32), row by row.
//!
//! Every string is UTF-8 and ends with a zero byte. A value is kept as the
//! four bytes stand, as a `u32`: they are the bits of a 32-bit float.

use crate::wire::{
    be_u32, has_terminator, is_terminator_at, lemma_terminator_unique, read_u32_be_at, read_u8_at,
    string_from_utf8, terminator,
};
use vstd::prelude::*;
use vstd::slice::{slice_subrange, slice_to_vec};
use vstd::utf8::{decode_utf8, valid_utf8};

verus! {

/// Why a byte buffer is not a map file.
#[derive(Debug, Copy, Clone, PartialEq, Eq, Structural)]
pub enum MapError {
    /// The buffer does not start with the magic bytes.
    NotMapFile,
    /// The palette count is cut short.
    ReadBlocks,
    /// The width is cut short.
    ReadWidth,
    /// The height is cut short.
    ReadHeight,
    /// A palette entry's flag count is missing.
    ReadFlagCount,
    /// A palette entry's key/value count is missing. It is reported in the
    /// words of the flag count, the first of the entry's three leading bytes.
    ReadKeyValueCount,
    /// A palette entry's bounding byte is missing. It is reported in the
    /// words of the flag count too.
    ReadBounding,
    /// A string runs to the end of the buffer without a zero byte.
    MissingTerminator,
    /// A string is not valid UTF-8.
    InvalidUtf8,
    /// The four bytes of a value are cut short.
    ReadValue,
    /// A palette index of the grid is cut short.
    ReadBlockIndex,
}

impl MapError {
    /// The fixed message that reports this error.
    pub fn message(&self) -> (r: &'static str)
        ensures
            r@ == self.spec_message()@,
    {
        match self {
            MapError::NotMapFile => "not a map file",
            MapError::ReadBlocks => "Read blocks failed",
            MapError::ReadWidth => "Read width failed",
            MapError::ReadHeight => "Read height failed",
            MapError::ReadFlagCount => "Read flag count failed",
            MapError::ReadKeyValueCount => "Read flag count failed",
            MapError::ReadBounding => "Read flag count failed",
            MapError::MissingTerminator => "read zero end string failed",
            MapError::InvalidUtf8 => "invalid file, not valid utf8 string",
            MapError::ReadValue => "Read f32 be value failed",
            MapError::ReadBlockIndex => "Read block idx failed",
        }
    }

    pub open spec fn spec_message(&self) -> &'static str {
        match self {
            MapError::NotMapFile => "not a map file",
            MapError::ReadBlocks => "Read blocks failed",
            MapError::ReadWidth => "Read width failed",
            MapError::ReadHeight => "Read height failed",
            MapError::ReadFlagCount => "Read flag count failed",
            MapError::ReadKeyValueCount => "Read flag count failed",
            MapError::ReadBounding => "Read flag count failed",
            MapError::MissingTerminator => "read zero end string failed",
            MapError::InvalidUtf8 => "invalid file, not valid utf8 string",
            MapError::ReadValue => "Read f32 be value failed",
            MapError::ReadBlockIndex => "Read block idx failed",
        }
    }
}

/// What a palette entry says, as mathematical values.
pub struct BlockModel {
    /// The byte that says which edges of the block stop what comes.
    pub bounding: u8,
    pub res: Seq<char>,
    pub flags: Seq<Seq<char>>,
    /// Keys with the bits of their values, in file order, no key twice.
    pub values: Seq<(Seq<char>, u32)>,
}

/// What a map file says, as mathematical values.
pub struct MapModel {
    pub width: u32,
    pub height: u32,
    pub blocks: Seq<BlockModel>,
    /// Palette indices, row by row.
    pub cells: Seq<u32>,
}

/// The texts of a list of strings.
pub open spec fn texts(v: Seq<String>) -> Seq<Seq<char>> {
    v.map_values(|s: String| s@)
}

/// The keys and value bits of a list of pairs.
pub open spec fn pairs(v: Seq<(String, u32)>) -> Seq<(Seq<char>, u32)> {
    v.map_values(|p: (String, u32)| (p.0@, p.1))
}

/// Some pair of `values` has the key `key`.
pub open spec fn has_key(values: Seq<(Seq<char>, u32)>, key: Seq<char>) -> bool {
    exists|i: int| 0 <= i < values.len() && (#[trigger] values[i]).0 == key
}

/// No key occurs in two pairs of `values`.
pub open spec fn distinct_keys(values: Seq<(Seq<char>, u32)>) -> bool {
    forall|i: int, j: int|
        0 <= i < j < values.len() ==> (#[trigger] values[i]).0 != (#[trigger] values[j]).0
}

/// `values` with the pair added at its end, unless the key is there already:
/// the pair that came first stays.
pub open spec fn insert_first(values: Seq<(Seq<char>, u32)>, key: Seq<char>, bits: u32) -> Seq<
    (Seq<char>, u32),
> {
    if has_key(values, key) {
        values
    } else {
        values.push((key, bits))
    }
}

/// The magic bytes at the start of a map file: `uth`.
pub open spec fn magic() -> Seq<u8> {
    seq![0x75u8, 0x74u8, 0x68u8]
}

/// One byte and what follows it.
pub open spec fn spec_byte(s: Seq<u8>) -> Option<(u8, Seq<u8>)> {
    if s.len() >= 1 {
        Some((s[0], s.skip(1)))
    } else {
        None
    }
}

/// One big-endian u32 and what follows it.
pub open spec fn spec_word(s: Seq<u8>) -> Option<(u32, Seq<u8>)> {
    if s.len() >= 4 {
        Some((be_u32(s.take(4)), s.skip(4)))
    } else {
        None
    }
}

/// One zero-terminated string and what follows its terminator.
pub open spec fn spec_text(s: Seq<u8>) -> Result<(Seq<char>, Seq<u8>), MapError> {
    if !has_terminator(s) {
        Err(MapError::MissingTerminator)
    } else if !valid_utf8(s.take(terminator(s))) {
        Err(MapError::InvalidUtf8)
    } else {
        Ok((decode_utf8(s.take(terminator(s))), s.skip(terminator(s) + 1)))
    }
}

/// `count` strings after those in `acc`, and what follows them.
pub open spec fn spec_flags(s: Seq<u8>, count: nat, acc: Seq<Seq<char>>) -> Result<
    (Seq<Seq<char>>, Seq<u8>),
    MapError,
>
    decreases count,
{
    if count == 0 {
        Ok((acc, s))
    } else {
        match spec_text(s) {
            Err(e) => Err(e),
            Ok((flag, rest)) => spec_flags(rest, (count - 1) as nat, acc.push(flag)),
        }
    }
}

/// `count` key/value pairs after those in `acc`, and what follows them.
pub open spec fn spec_values(s: Seq<u8>, count: nat, acc: Seq<(Seq<char>, u32)>) -> Result<
    (Seq<(Seq<char>, u32)>, Seq<u8>),
    MapError,
>
    decreases count,
{
    if count == 0 {
        Ok((acc, s))
    } else {
        match spec_text(s) {
            Err(e) => Err(e),
            Ok((key, rest)) => match spec_word(rest) {
                None => Err(MapError::ReadValue),
                Some((bits, rest)) => spec_values(
                    rest,
                    (count - 1) as nat,
                    insert_first(acc, key, bits),
                ),
            },
        }
    }
}

/// One palette entry and what follows it.
pub open spec fn spec_block(s: Seq<u8>) -> Result<(BlockModel, Seq<u8>), MapError> {
    match spec_byte(s) {
        None => Err(MapError::ReadFlagCount),
        Some((flag_count, s)) => match spec_byte(s) {
            None => Err(MapError::ReadKeyValueCount),
            Some((value_count, s)) => match spec_byte(s) {
                None => Err(MapError::ReadBounding),
                Some((bounding, s)) => match spec_text(s) {
                    Err(e) => Err(e),
                    Ok((res, s)) => match spec_flags(s, flag_count as nat, Seq::empty()) {
                        Err(e) => Err(e),
                        Ok((flags, s)) => match spec_values(
                            s,
                            value_count as nat,
                            Seq::empty(),
                        ) {
                            Err(e) => Err(e),
                            Ok((values, s)) => Ok((BlockModel { bounding, res, flags, values }, s)),
                        },
                    },
                },
            },
        },
    }
}

/// `count` palette entries after those in `acc`, and what follows them.
pub open spec fn spec_blocks(s: Seq<u8>, count: nat, acc: Seq<BlockModel>) -> Result<
    (Seq<BlockModel>, Seq<u8>),
    MapError,
>
    decreases count,
{
    if count == 0 {
        Ok((acc, s))
    } else {
        match spec_block(s) {
            Err(e) => Err(e),
            Ok((block, rest)) => spec_blocks(rest, (count - 1) as nat, acc.push(block)),
        }
    }
}

/// `count` palette indices after those in `acc`.
pub open spec fn spec_cells(s: Seq<u8>, count: nat, acc: Seq<u32>) -> Result<Seq<u32>, MapError>
    decreases count,
{
    if count == 0 {
        Ok(acc)
    } else {
        match spec_word(s) {
            None => Err(MapError::ReadBlockIndex),
            Some((cell, rest)) => spec_cells(rest, (count - 1) as nat, acc.push(cell)),
        }
    }
}

/// What the bytes of a map file say, or why they are none.
pub open spec fn spec_map(s: Seq<u8>) -> Result<MapModel, MapError> {
    if s.len() < 3 || s.take(3) != magic() {
        Err(MapError::NotMapFile)
    } else {
        match spec_word(s.skip(3)) {
            None => Err(MapError::ReadBlocks),
            Some((count, s)) => match spec_word(s) {
                None => Err(MapError::ReadWidth),
                Some((width, s)) => match spec_word(s) {
                    None => Err(MapError::ReadHeight),
                    Some((height, s)) => match spec_blocks(s, count as nat, Seq::empty()) {
                        Err(e) => Err(e),
                        Ok((blocks, s)) => match spec_cells(
                            s,
                            (width as nat) * (height as nat),
                            Seq::empty(),
                        ) {
                            Err(e) => Err(e),
                            Ok(cells) => Ok(MapModel { width, height, blocks, cells }),
                        },
                    },
                },
            },
        }
    }
}

/// One entry of a map's palette.
pub struct BlockInfo {
    bounding: u8,
    res: String,
    flags: Vec<String>,
    value: Vec<(String, u32)>,
}

impl View for BlockInfo {
    type V = BlockModel;

    closed spec fn view(&self) -> BlockModel {
        BlockModel {
            bounding: self.bounding,
            res: self.res@,
            flags: texts(self.flags@),
            values: pairs(self.value@),
        }
    }
}

/// The models of a list of palette entries.
pub open spec fn models(v: Seq<BlockInfo>) -> Seq<BlockModel> {
    v.map_values(|b: BlockInfo| b@)
}

impl BlockInfo {
    /// The byte that says which edges of the block stop what comes: the
    /// bits of a `Bounding`, if it is below 16.
    pub fn get_bounding(&self) -> (r: u8)
        ensures
            r == self@.bounding,
    {
        self.bounding
    }

    /// The resource id.
    pub fn get_res(&self) -> (r: &str)
        ensures
            r@ == self@.res,
    {
        self.res.as_str()
    }

    /// The flags, in file order.
    pub fn get_flags(&self) -> (r: &Vec<String>)
        ensures
            texts(r@) == self@.flags,
    {
        &self.flags
    }

    /// The keys with the bits of their values, in file order.
    pub fn get_values(&self) -> (r: &Vec<(String, u32)>)
        ensures
            pairs(r@) == self@.values,
    {
        &self.value
    }
}

/// The place of `key` among `values`, if it is there.
fn find_key(values: &Vec<(String, u32)>, key: &String) -> (r: Option<usize>)
    ensures
        r is Some <==> has_key(pairs(values@), key@),
        r is Some ==> r->Some_0 < values@.len() && values@[r->Some_0 as int].0@ == key@,
{
    let mut i: usize = 0;
    while i < values.len()
        invariant
            i <= values@.len(),
            forall|j: int| 0 <= j < i ==> (#[trigger] pairs(values@)[j]).0 != key@,
        decreases values@.len() - i,
    {
        if values[i].0 == *key {
            assert(pairs(values@)[i as int].0 == key@);
            return Some(i);
        }
        i += 1;
    }
    None
}

/// The bytes of the zero-terminated string that starts at `at`, and the
/// place after its terminator.
pub fn read_zero_end_string<'a>(data: &'a [u8], at: usize) -> (r: Result<
    (&'a [u8], usize),
    MapError,
>)
    requires
        at <= data@.len(),
    ensures
        match r {
            Ok((raw, next)) => {
                &&& is_terminator_at(data@.skip(at as int), next - at - 1)
                &&& raw@ == data@.subrange(at as int, next - 1)
                &&& at < next <= data@.len()
            },
            Err(e) => e == MapError::MissingTerminator && !has_terminator(data@.skip(at as int)),
        },
{
    let ghost rest = data@.skip(at as int);
    let mut end: usize = at;
    while end < data.len()
        invariant
            at <= end <= data@.len(),
            rest == data@.skip(at as int),
            forall|j: int| 0 <= j < end - at ==> rest[j] != 0,
        decreases data@.len() - end,
    {
        if data[end] == 0 {
            assert(rest[end - at] == data@[end as int]);
            return Ok((slice_subrange(data, at, end), end + 1));
        }
        assert(rest[end - at] == data@[end as int]);
        end += 1;
    }
    assert(!has_terminator(rest)) by {
        if has_terminator(rest) {
            let n = terminator(rest);
            assert(is_terminator_at(rest, n));
            assert(rest[n] != 0);
        }
    }
    Err(MapError::MissingTerminator)
}

/// The string that starts at `at`, decoded, and the place after it.
fn read_text(data: &[u8], at: usize) -> (r: Result<(String, usize), MapError>)
    requires
        at <= data@.len(),
    ensures
        match spec_text(data@.skip(at as int)) {
            Ok((text, rest)) => {
                &&& r is Ok
                &&& r->Ok_0.0@ == text
                &&& r->Ok_0.1 <= data@.len()
                &&& data@.skip(r->Ok_0.1 as int) == rest
            },
            Err(e) => r is Err && r->Err_0 == e,
        },
{
    let ghost rest = data@.skip(at as int);
    match read_zero_end_string(data, at) {
        Err(e) => Err(e),
        Ok((raw, next)) => {
            proof {
                lemma_terminator_unique(rest, next - at - 1);
                assert(rest.take(terminator(rest)) =~= raw@);
                assert(rest.skip(terminator(rest) + 1) =~= data@.skip(next as int));
            }
            match string_from_utf8(slice_to_vec(raw)) {
                None => Err(MapError::InvalidUtf8),
                Some(text) => Ok((text, next)),
            }
        },
    }
}

/// One byte at `at`.
fn read_byte(data: &[u8], at: usize) -> (r: Option<(u8, usize)>)
    requires
        at <= data@.len(),
    ensures
        match spec_byte(data@.skip(at as int)) {
            Some((b, rest)) => {
                &&& r is Some
                &&& r->Some_0.0 == b
                &&& r->Some_0.1 <= data@.len()
                &&& data@.skip(r->Some_0.1 as int) == rest
            },
            None => r is None,
        },
{
    match read_u8_at(data, at) {
        None => None,
        Some(b) => {
            assert(data@.len() == data.len());
            assert(data@.skip(at as int).skip(1) =~= data@.skip(at + 1));
            Some((b, at + 1))
        },
    }
}

/// One big-endian u32 at `at`.
fn read_word(data: &[u8], at: usize) -> (r: Option<(u32, usize)>)
    requires
        at <= data@.len(),
    ensures
        match spec_word(data@.skip(at as int)) {
            Some((w, rest)) => {
                &&& r is Some
                &&& r->Some_0.0 == w
                &&& r->Some_0.1 <= data@.len()
                &&& data@.skip(r->Some_0.1 as int) == rest
            },
            None => r is None,
        },
{
    match read_u32_be_at(data, at) {
        None => None,
        Some(w) => {
            assert(data@.len() == data.len());
            assert(data@.skip(at as int).skip(4) =~= data@.skip(at + 4));
            assert(data@.skip(at as int).take(4) =~= data@.subrange(at as int, at + 4));
            Some((w, at + 4))
        },
    }
}

/// `count` flags from `at` on.
fn read_flags(data: &[u8], at: usize, count: u8) -> (r: Result<(Vec<String>, usize), MapError>)
    requires
        at <= data@.len(),
    ensures
        match spec_flags(data@.skip(at as int), count as nat, Seq::empty()) {
            Ok((flags, rest)) => {
                &&& r is Ok
                &&& texts(r->Ok_0.0@) == flags
                &&& r->Ok_0.1 <= data@.len()
                &&& data@.skip(r->Ok_0.1 as int) == rest
            },
            Err(e) => r is Err && r->Err_0 == e,
        },
{
    let ghost goal = spec_flags(data@.skip(at as int), count as nat, Seq::empty());
    let mut flags: Vec<String> = Vec::new();
    let mut pos: usize = at;
    let mut done: u8 = 0;
    assert(texts(flags@) =~= Seq::empty());
    while done < count
        invariant
            done <= count,
            pos <= data@.len(),
            goal == spec_flags(data@.skip(at as int), count as nat, Seq::empty()),
            goal == spec_flags(data@.skip(pos as int), (count - done) as nat, texts(flags@)),
        decreases count - done,
    {
        match read_text(data, pos) {
            Err(e) => {
                return Err(e);
            },
            Ok((flag, next)) => {
                let ghost before = texts(flags@);
                flags.push(flag);
                assert(texts(flags@) =~= before.push(flag@));
                pos = next;
                done += 1;
            },
        }
    }
    Ok((flags, pos))
}

/// `count` key/value pairs from `at` on; of two pairs with one key the
/// first stays.
fn read_values(data: &[u8], at: usize, count: u8) -> (r: Result<
    (Vec<(String, u32)>, usize),
    MapError,
>)
    requires
        at <= data@.len(),
    ensures
        match spec_values(data@.skip(at as int), count as nat, Seq::empty()) {
            Ok((values, rest)) => {
                &&& r is Ok
                &&& pairs(r->Ok_0.0@) == values
                &&& r->Ok_0.1 <= data@.len()
                &&& data@.skip(r->Ok_0.1 as int) == rest
            },
            Err(e) => r is Err && r->Err_0 == e,
        },
{
    let ghost goal = spec_values(data@.skip(at as int), count as nat, Seq::empty());
    let mut values: Vec<(String, u32)> = Vec::new();
    let mut pos: usize = at;
    let mut done: u8 = 0;
    assert(pairs(values@) =~= Seq::empty());
    while done < count
        invariant
            done <= count,
            pos <= data@.len(),
            goal == spec_values(data@.skip(at as int), count as nat, Seq::empty()),
            goal == spec_values(data@.skip(pos as int), (count - done) as nat, pairs(values@)),
        decreases count - done,
    {
        match read_text(data, pos) {
            Err(e) => {
                return Err(e);
            },
            Ok((key, next)) => match read_word(data, next) {
                None => {
                    return Err(MapError::ReadValue);
                },
                Some((bits, next)) => {
                    let ghost before = pairs(values@);
                    if find_key(&values, &key).is_none() {
                        values.push((key, bits));
                        assert(pairs(values@) =~= before.push((key@, bits)));
                    }
                    pos = next;
                    done += 1;
                },
            },
        }
    }
    Ok((values, pos))
}

/// One palette entry from `at` on.
fn read_block(data: &[u8], at: usize) -> (r: Result<(BlockInfo, usize), MapError>)
    requires
        at <= data@.len(),
    ensures
        match spec_block(data@.skip(at as int)) {
            Ok((block, rest)) => {
                &&& r is Ok
                &&& r->Ok_0.0@ == block
                &&& r->Ok_0.1 <= data@.len()
                &&& data@.skip(r->Ok_0.1 as int) == rest
            },
            Err(e) => r is Err && r->Err_0 == e,
        },
{
    let (flag_count, pos) = match read_byte(data, at) {
        None => {
            return Err(MapError::ReadFlagCount);
        },
        Some(p) => p,
    };
    let (value_count, pos) = match read_byte(data, pos) {
        None => {
            return Err(MapError::ReadKeyValueCount);
        },
        Some(p) => p,
    };
    let (bounding, pos) = match read_byte(data, pos) {
        None => {
            return Err(MapError::ReadBounding);
        },
        Some(p) => p,
    };
    let (res, pos) = match read_text(data, pos) {
        Err(e) => {
            return Err(e);
        },
        Ok(p) => p,
    };
    let (flags, pos) = match read_flags(data, pos, flag_count) {
        Err(e) => {
            return Err(e);
        },
        Ok(p) => p,
    };
    let (value, pos) = match read_values(data, pos, value_count) {
        Err(e) => {
            return Err(e);
        },
        Ok(p) => p,
    };
    Ok((BlockInfo { bounding, res, flags, value }, pos))
}

/// `count` palette entries from `at` on.
fn read_blocks(data: &[u8], at: usize, count: u32) -> (r: Result<(Vec<BlockInfo>, usize), MapError>)
    requires
        at <= data@.len(),
    ensures
        match spec_blocks(data@.skip(at as int), count as nat, Seq::empty()) {
            Ok((blocks, rest)) => {
                &&& r is Ok
                &&& models(r->Ok_0.0@) == blocks
                &&& r->Ok_0.1 <= data@.len()
                &&& data@.skip(r->Ok_0.1 as int) == rest
            },
            Err(e) => r is Err && r->Err_0 == e,
        },
{
    let ghost goal = spec_blocks(data@.skip(at as int), count as nat, Seq::empty());
    let mut blocks: Vec<BlockInfo> = Vec::new();
    let mut pos: usize = at;
    let mut done: u32 = 0;
    assert(models(blocks@) =~= Seq::empty());
    while done < count
        invariant
            done <= count,
            pos <= data@.len(),
            goal == spec_blocks(data@.skip(at as int), count as nat, Seq::empty()),
            goal == spec_blocks(data@.skip(pos as int), (count - done) as nat, models(blocks@)),
        decreases count - done,
    {
        match read_block(data, pos) {
            Err(e) => {
                return Err(e);
            },
            Ok((block, next)) => {
                let ghost before = models(blocks@);
                let ghost model = block@;
                blocks.push(block);
                assert(models(blocks@) =~= before.push(model));
                pos = next;
                done += 1;
            },
        }
    }
    Ok((blocks, pos))
}

/// `count` palette indices from `at` on.
fn read_cells(data: &[u8], at: usize, count: u64) -> (r: Result<Vec<u32>, MapError>)
    requires
        at <= data@.len(),
    ensures
        match spec_cells(data@.skip(at as int), count as nat, Seq::empty()) {
            Ok(cells) => r is Ok && r->Ok_0@ == cells,
            Err(e) => r is Err && r->Err_0 == e,
        },
{
    let ghost goal = spec_cells(data@.skip(at as int), count as nat, Seq::empty());
    let mut cells: Vec<u32> = Vec::new();
    let mut pos: usize = at;
    let mut done: u64 = 0;
    while done < count
        invariant
            done <= count,
            pos <= data@.len(),
            goal == spec_cells(data@.skip(at as int), count as nat, Seq::empty()),
            goal == spec_cells(data@.skip(pos as int), (count - done) as nat, cells@),
        decreases count - done,
    {
        match read_word(data, pos) {
            None => {
                return Err(MapError::ReadBlockIndex);
            },
            Some((cell, next)) => {
                cells.push(cell);
                pos = next;
                done += 1;
            },
        }
    }
    Ok(cells)
}

/// Width times height, which always fits.
fn cell_count(width: u32, height: u32) -> (r: u64)
    ensures
        r == (width as nat) * (height as nat),
{
    assert((width as nat) * (height as nat) <= 0xffff_fffe_0000_0001) by (nonlinear_arith)
        requires
            width <= 0xffff_ffff,
            height <= 0xffff_ffff,
    ;
    (width as u64) * (height as u64)
}

/// A block description as a map file holds it.
pub trait GameBlock {
    /// What the description says.
    spec fn model(&self) -> BlockModel;

    fn get_res(&self) -> (r: &str)
        ensures
            r@ == self.model().res,
    ;

    fn get_flags(&self) -> (r: &[String])
        ensures
            texts(r@) == self.model().flags,
    ;

    fn get_values(&self) -> (r: &Vec<(String, u32)>)
        ensures
            pairs(r@) == self.model().values,
    ;
}

/// A map as a map file holds it: a grid of block descriptions, the top left
/// cell at (0, 0).
pub trait GameMap<Block: GameBlock> {
    /// What the map says.
    spec fn model(&self) -> MapModel;

    /// The width, unless it is zero.
    fn get_width(&self) -> (r: Option<usize>)
        ensures
            r == (if self.model().width == 0 {
                None
            } else {
                Some(self.model().width as usize)
            }),
    ;

    /// The height, unless it is zero.
    fn get_height(&self) -> (r: Option<usize>)
        ensures
            r == (if self.model().height == 0 {
                None
            } else {
                Some(self.model().height as usize)
            }),
    ;

    /// The description of the block in column `x` of row `y`: none outside
    /// the grid, and none where the cell names no palette entry.
    fn get_block_info(&self, x: usize, y: usize) -> (r: Option<&Block>)
        ensures
            match self.model().block_at(x as int, y as int) {
                Some(block) => r is Some && r->Some_0.model() == block,
                None => r is None,
            },
    ;
}

impl GameBlock for BlockInfo {
    open spec fn model(&self) -> BlockModel {
        self@
    }

    fn get_res(&self) -> &str {
        self.res.as_str()
    }

    fn get_flags(&self) -> &[String] {
        self.flags.as_slice()
    }

    fn get_values(&self) -> &Vec<(String, u32)> {
        &self.value
    }
}

/// A map read from a file: fixed once it is read.
pub struct FixedUthMap {
    width: u32,
    height: u32,
    blocks: Vec<BlockInfo>,
    map: Vec<u32>,
}

impl View for FixedUthMap {
    type V = MapModel;

    closed spec fn view(&self) -> MapModel {
        MapModel {
            width: self.width,
            height: self.height,
            blocks: models(self.blocks@),
            cells: self.map@,
        }
    }
}

impl MapModel {
    /// The grid has one cell for every column of every row.
    pub open spec fn wf(self) -> bool {
        self.cells.len() == (self.width as nat) * (self.height as nat)
    }

    /// The palette index in column `x` of row `y`.
    pub open spec fn cell(self, x: int, y: int) -> u32
        recommends
            0 <= x < self.width,
            0 <= y < self.height,
    {
        self.cells[y * (self.width as int) + x]
    }

    /// The palette entry that the cell in column `x` of row `y` names, if
    /// the cell lies in the grid and the palette is that long.
    pub open spec fn block_at(self, x: int, y: int) -> Option<BlockModel> {
        if 0 <= x < self.width && 0 <= y < self.height && self.cell(x, y) < self.blocks.len() {
            Some(self.blocks[self.cell(x, y) as int])
        } else {
            None
        }
    }
}

/// A pair that is taken in the way of `insert_first` leaves the keys distinct.
proof fn lemma_insert_first_distinct(values: Seq<(Seq<char>, u32)>, key: Seq<char>, bits: u32)
    requires
        distinct_keys(values),
    ensures
        distinct_keys(insert_first(values, key, bits)),
{
    if !has_key(values, key) {
        let after = values.push((key, bits));
        assert forall|i: int, j: int| 0 <= i < j < after.len() implies (#[trigger] after[i]).0 != (
        #[trigger] after[j]).0 by {
            if j == values.len() {
                assert(after[i] == values[i]);
                if values[i].0 == key {
                    assert(has_key(values, key));
                }
            } else {
                assert(after[i] == values[i] && after[j] == values[j]);
            }
        }
    }
}

/// No key occurs twice among the key/value pairs that are read.
pub proof fn lemma_values_are_distinct(s: Seq<u8>, count: nat, acc: Seq<(Seq<char>, u32)>)
    requires
        distinct_keys(acc),
    ensures
        spec_values(s, count, acc) matches Ok((values, _)) ==> distinct_keys(values),
    decreases count,
{
    if count > 0 {
        if let Ok((key, rest)) = spec_text(s) {
            if let Some((bits, rest)) = spec_word(rest) {
                lemma_insert_first_distinct(acc, key, bits);
                lemma_values_are_distinct(rest, (count - 1) as nat, insert_first(acc, key, bits));
            }
        }
    }
}

/// `spec_cells` yields as many cells as it was asked for.
proof fn lemma_cells_len(s: Seq<u8>, count: nat, acc: Seq<u32>)
    ensures
        spec_cells(s, count, acc) matches Ok(cells) ==> cells.len() == acc.len() + count,
    decreases count,
{
    if count > 0 {
        match spec_word(s) {
            None => {},
            Some((cell, rest)) => {
                lemma_cells_len(rest, (count - 1) as nat, acc.push(cell));
            },
        }
    }
}

/// What `spec_map` accepts is well formed.
pub proof fn lemma_spec_map_wf(s: Seq<u8>)
    ensures
        spec_map(s) matches Ok(m) ==> m.wf(),
{
    if let Ok(m) = spec_map(s) {
        let (count, s1) = spec_word(s.skip(3))->Some_0;
        let (width, s2) = spec_word(s1)->Some_0;
        let (height, s3) = spec_word(s2)->Some_0;
        let (blocks, s4) = spec_blocks(s3, count as nat, Seq::empty())->Ok_0;
        lemma_cells_len(s4, (width as nat) * (height as nat), Seq::empty());
    }
}

impl FixedUthMap {
    #[verifier::type_invariant]
    spec fn inv(self) -> bool {
        self.map@.len() == (self.width as nat) * (self.height as nat)
    }

    /// The map that the bytes of a map file describe. Bytes after the grid
    /// are ignored.
    pub fn try_from(value: Vec<u8>) -> (r: Result<FixedUthMap, MapError>)
        ensures
            match spec_map(value@) {
                Ok(m) => r is Ok && r->Ok_0@ == m,
                Err(e) => r is Err && r->Err_0 == e,
            },
    {
        let data = value.as_slice();
        if data.len() < 3 || data[0] != 0x75 || data[1] != 0x74 || data[2] != 0x68 {
            assert(data@.len() >= 3 ==> data@.take(3)[0] == data@[0] && data@.take(3)[1] == data@[1]
                && data@.take(3)[2] == data@[2]);
            return Err(MapError::NotMapFile);
        }
        assert(data@.take(3) =~= magic());
        let (count, pos) = match read_word(data, 3) {
            None => {
                return Err(MapError::ReadBlocks);
            },
            Some(p) => p,
        };
        let (width, pos) = match read_word(data, pos) {
            None => {
                return Err(MapError::ReadWidth);
            },
            Some(p) => p,
        };
        let (height, pos) = match read_word(data, pos) {
            None => {
                return Err(MapError::ReadHeight);
            },
            Some(p) => p,
        };
        let (blocks, pos) = match read_blocks(data, pos, count) {
            Err(e) => {
                return Err(e);
            },
            Ok(p) => p,
        };
        let map = match read_cells(data, pos, cell_count(width, height)) {
            Err(e) => {
                return Err(e);
            },
            Ok(cells) => cells,
        };
        proof {
            lemma_spec_map_wf(value@);
        }
        Ok(FixedUthMap { width, height, blocks, map })
    }

    pub fn get_width(&self) -> (r: u32)
        ensures
            r == self@.width,
    {
        self.width
    }

    pub fn get_height(&self) -> (r: u32)
        ensures
            r == self@.height,
    {
        self.height
    }

    /// The palette, in file order.
    pub fn get_blocks(&self) -> (r: &Vec<BlockInfo>)
        ensures
            models(r@) == self@.blocks,
    {
        &self.blocks
    }

    /// The palette indices of the grid, row by row.
    pub fn get_cells(&self) -> (r: &Vec<u32>)
        ensures
            r@ == self@.cells,
            self@.wf(),
    {
        proof {
            use_type_invariant(self);
        }
        &self.map
    }
}

impl GameMap<BlockInfo> for FixedUthMap {
    open spec fn model(&self) -> MapModel {
        self@
    }

    fn get_width(&self) -> Option<usize> {
        if self.width == 0 {
            None
        } else {
            Some(self.width as usize)
        }
    }

    fn get_height(&self) -> Option<usize> {
        if self.height == 0 {
            None
        } else {
            Some(self.height as usize)
        }
    }

    fn get_block_info(&self, x: usize, y: usize) -> Option<&BlockInfo> {
        proof {
            use_type_invariant(self);
        }
        if x >= self.width as usize || y >= self.height as usize {
            return None;
        }
        let width = self.width as usize;
        let len = self.map.len();
        assert(0 <= y * width && y * width + x < len) by (nonlinear_arith)
            requires
                0 <= x < width,
                0 <= y < self.height,
                len == width * self.height,
        ;
        let cell = self.map[y * width + x] as usize;
        if cell < self.blocks.len() {
            Some(&self.blocks[cell])
        } else {
            None
        }
    }
}

} // verus!
