use untitled_th::uth_map::{
    read_zero_end_string, BlockInfo, FixedUthMap, GameBlock, GameMap, MapError,
};

/// A palette entry as a test describes it.
struct Entry {
    bounding: u8,
    res: &'static str,
    flags: Vec<&'static str>,
    values: Vec<(&'static str, f32)>,
}

fn text(out: &mut Vec<u8>, s: &str) {
    out.extend_from_slice(s.as_bytes());
    out.push(0);
}

fn file(width: u32, height: u32, palette: &[Entry], cells: &[u32]) -> Vec<u8> {
    let mut out = Vec::new();
    out.extend_from_slice(b"uth");
    out.extend_from_slice(&(palette.len() as u32).to_be_bytes());
    out.extend_from_slice(&width.to_be_bytes());
    out.extend_from_slice(&height.to_be_bytes());
    for e in palette {
        out.push(e.flags.len() as u8);
        out.push(e.values.len() as u8);
        out.push(e.bounding);
        text(&mut out, e.res);
        for f in &e.flags {
            text(&mut out, f);
        }
        for (k, v) in &e.values {
            text(&mut out, k);
            out.extend_from_slice(&v.to_bits().to_be_bytes());
        }
    }
    for c in cells {
        out.extend_from_slice(&c.to_be_bytes());
    }
    out
}

fn sample() -> (Vec<Entry>, Vec<u32>) {
    let palette = vec![
        Entry { bounding: 0b1111, res: "wall", flags: vec!["solid", "暗夜"], values: vec![("hp", 2.5)] },
        Entry { bounding: 0, res: "", flags: vec![], values: vec![] },
        Entry {
            bounding: 0b0111,
            res: "gate",
            flags: vec!["open"],
            values: vec![("speed", -1.0), ("weight", 1.0e9), ("zero", 0.0)],
        },
    ];
    let cells = vec![0, 1, 2, 2, 1, 0];
    (palette, cells)
}

fn check_block(block: &BlockInfo, entry: &Entry) {
    assert_eq!(block.get_bounding(), entry.bounding);
    assert_eq!(block.get_res(), entry.res);
    let flags: Vec<&str> = block.get_flags().iter().map(|s| s.as_str()).collect();
    assert_eq!(flags, entry.flags);
    let values: Vec<(&str, f32)> =
        block.get_values().iter().map(|(k, v)| (k.as_str(), f32::from_bits(*v))).collect();
    assert_eq!(values, entry.values);
}

#[test]
fn a_map_that_was_written_is_read_back() {
    let (palette, cells) = sample();
    let map = FixedUthMap::try_from(file(3, 2, &palette, &cells)).unwrap();
    assert_eq!(map.get_width(), 3);
    assert_eq!(map.get_height(), 2);
    assert_eq!(map.get_blocks().len(), 3);
    for (block, entry) in map.get_blocks().iter().zip(palette.iter()) {
        check_block(block, entry);
    }
    assert_eq!(map.get_cells(), &cells);
}

#[test]
fn the_trait_methods_tell_the_same() {
    let (palette, cells) = sample();
    let map = FixedUthMap::try_from(file(3, 2, &palette, &cells)).unwrap();
    assert_eq!(GameMap::get_width(&map), Some(3));
    assert_eq!(GameMap::get_height(&map), Some(2));
    let block = map.get_block_info(2, 1).unwrap();
    assert_eq!(GameBlock::get_res(block), "wall");
    assert_eq!(GameBlock::get_flags(block).len(), 2);
    assert_eq!(GameBlock::get_values(block)[0].1, 2.5f32.to_bits());
    assert_eq!(GameBlock::get_res(map.get_block_info(2, 0).unwrap()), "gate");
    assert_eq!(GameBlock::get_res(map.get_block_info(0, 1).unwrap()), "gate");
    assert!(map.get_block_info(3, 0).is_none());
    assert!(map.get_block_info(0, 2).is_none());
}

#[test]
fn a_cell_may_name_no_palette_entry() {
    let (palette, _) = sample();
    let map = FixedUthMap::try_from(file(2, 1, &palette, &[7, 1])).unwrap();
    assert_eq!(map.get_cells(), &vec![7, 1]);
    assert!(map.get_block_info(0, 0).is_none());
    assert!(map.get_block_info(1, 0).is_some());
}

#[test]
fn an_empty_map_has_no_width_and_no_height() {
    let map = FixedUthMap::try_from(file(0, 0, &[], &[])).unwrap();
    assert_eq!(map.get_width(), 0);
    assert_eq!(GameMap::get_width(&map), None);
    assert_eq!(GameMap::get_height(&map), None);
    assert!(map.get_blocks().is_empty());
    assert!(map.get_cells().is_empty());
    assert!(map.get_block_info(0, 0).is_none());
}

#[test]
fn bytes_after_the_grid_are_ignored() {
    let (palette, cells) = sample();
    let mut bytes = file(3, 2, &palette, &cells);
    bytes.extend_from_slice(&[1, 2, 3]);
    let map = FixedUthMap::try_from(bytes).unwrap();
    assert_eq!(map.get_cells(), &cells);
}

#[test]
fn of_two_values_with_one_key_the_first_stays() {
    let palette = vec![Entry {
        bounding: 0,
        res: "r",
        flags: vec![],
        values: vec![("a", 1.0), ("b", 2.0), ("a", 3.0)],
    }];
    let map = FixedUthMap::try_from(file(0, 0, &palette, &[])).unwrap();
    let values = map.get_blocks()[0].get_values();
    assert_eq!(values.len(), 2);
    assert_eq!((values[0].0.as_str(), values[0].1), ("a", 1.0f32.to_bits()));
    assert_eq!((values[1].0.as_str(), values[1].1), ("b", 2.0f32.to_bits()));
}

#[test]
fn a_value_keeps_its_bits() {
    let mut bytes = file(0, 0, &[Entry { bounding: 0, res: "r", flags: vec![], values: vec![("k", 0.0)] }], &[]);
    let n = bytes.len();
    bytes[n - 4..].copy_from_slice(&[0x7f, 0xc0, 0x12, 0x34]);
    let map = FixedUthMap::try_from(bytes).unwrap();
    assert_eq!(map.get_blocks()[0].get_values()[0].1, 0x7fc0_1234);
}

fn error_of(bytes: Vec<u8>) -> MapError {
    match FixedUthMap::try_from(bytes) {
        Ok(_) => panic!("the bytes were read as a map"),
        Err(e) => e,
    }
}

#[test]
fn what_does_not_start_with_the_magic_is_no_map() {
    assert_eq!(error_of(vec![]), MapError::NotMapFile);
    assert_eq!(error_of(b"ut".to_vec()), MapError::NotMapFile);
    assert_eq!(error_of(b"utx\0\0\0\0\0\0\0\0\0\0\0\0".to_vec()), MapError::NotMapFile);
    assert_eq!(error_of(b"Uth\0\0\0\0\0\0\0\0\0\0\0\0".to_vec()), MapError::NotMapFile);
}

#[test]
fn each_field_that_is_cut_short_has_its_error() {
    let palette = vec![Entry { bounding: 3, res: "res", flags: vec!["fl"], values: vec![("key", 1.5)] }];
    let bytes = file(1, 2, &palette, &[0, 0]);
    // magic 0..3, count 3..7, width 7..11, height 11..15, counts 15..18,
    // res 18..22, flag 22..25, key 25..29, value 29..33, cells 33..41
    assert_eq!(bytes.len(), 41);
    let cut = |n: usize| error_of(bytes[..n].to_vec());
    assert_eq!(cut(2), MapError::NotMapFile);
    assert_eq!(cut(3), MapError::ReadBlocks);
    assert_eq!(cut(6), MapError::ReadBlocks);
    assert_eq!(cut(7), MapError::ReadWidth);
    assert_eq!(cut(10), MapError::ReadWidth);
    assert_eq!(cut(11), MapError::ReadHeight);
    assert_eq!(cut(14), MapError::ReadHeight);
    assert_eq!(cut(15), MapError::ReadFlagCount);
    assert_eq!(cut(16), MapError::ReadKeyValueCount);
    assert_eq!(cut(17), MapError::ReadBounding);
    assert_eq!(cut(18), MapError::MissingTerminator);
    assert_eq!(cut(21), MapError::MissingTerminator);
    assert_eq!(cut(22), MapError::MissingTerminator);
    assert_eq!(cut(24), MapError::MissingTerminator);
    assert_eq!(cut(25), MapError::MissingTerminator);
    assert_eq!(cut(28), MapError::MissingTerminator);
    assert_eq!(cut(29), MapError::ReadValue);
    assert_eq!(cut(32), MapError::ReadValue);
    assert_eq!(cut(33), MapError::ReadBlockIndex);
    assert_eq!(cut(36), MapError::ReadBlockIndex);
    assert_eq!(cut(37), MapError::ReadBlockIndex);
    assert_eq!(cut(40), MapError::ReadBlockIndex);
    assert!(FixedUthMap::try_from(bytes.clone()).is_ok());
}

#[test]
fn every_cut_of_a_map_file_is_refused() {
    let (palette, cells) = sample();
    let bytes = file(3, 2, &palette, &cells);
    for n in 0..bytes.len() {
        assert!(FixedUthMap::try_from(bytes[..n].to_vec()).is_err(), "cut at {}", n);
    }
}

#[test]
fn a_string_that_is_not_utf8_is_refused() {
    let mut bytes = file(0, 0, &[Entry { bounding: 0, res: "ab", flags: vec!["cd"], values: vec![("ef", 1.0)] }], &[]);
    let at = |bytes: &Vec<u8>, c: u8| bytes.iter().position(|b| *b == c).unwrap();
    let res = at(&bytes, b'a');
    let flag = at(&bytes, b'c');
    let key = at(&bytes, b'e');
    let mut broken = bytes.clone();
    broken[res] = 0xff;
    assert_eq!(error_of(broken), MapError::InvalidUtf8);
    let mut broken = bytes.clone();
    broken[flag] = 0xc3;
    assert_eq!(error_of(broken), MapError::InvalidUtf8);
    bytes[key + 1] = 0x80;
    assert_eq!(error_of(bytes), MapError::InvalidUtf8);
}

#[test]
fn a_width_times_height_that_no_buffer_holds_is_refused() {
    let bytes = file(u32::MAX, u32::MAX, &[], &[1, 2, 3]);
    assert_eq!(error_of(bytes), MapError::ReadBlockIndex);
    let bytes = file(0, 0, &[], &[])[..15].to_vec();
    let mut many = bytes.clone();
    many[3..7].copy_from_slice(&u32::MAX.to_be_bytes());
    assert_eq!(error_of(many), MapError::ReadFlagCount);
}

#[test]
fn the_messages_of_the_errors() {
    assert_eq!(MapError::NotMapFile.message(), "not a map file");
    assert_eq!(MapError::ReadBlocks.message(), "Read blocks failed");
    assert_eq!(MapError::ReadWidth.message(), "Read width failed");
    assert_eq!(MapError::ReadHeight.message(), "Read height failed");
    assert_eq!(MapError::ReadFlagCount.message(), "Read flag count failed");
    assert_eq!(MapError::ReadKeyValueCount.message(), "Read flag count failed");
    assert_eq!(MapError::ReadBounding.message(), "Read flag count failed");
    assert_eq!(MapError::MissingTerminator.message(), "read zero end string failed");
    assert_eq!(MapError::InvalidUtf8.message(), "invalid file, not valid utf8 string");
    assert_eq!(MapError::ReadValue.message(), "Read f32 be value failed");
    assert_eq!(MapError::ReadBlockIndex.message(), "Read block idx failed");
}

#[test]
fn a_grid_that_is_cut_short_says_so() {
    let bytes = vec![b'u', b't', b'h', 0, 0, 0, 0, 0, 0, 0, 1, 0, 0, 0, 1, 0, 0, 0];
    let err = error_of(bytes);
    assert_eq!(err, MapError::ReadBlockIndex);
    assert_eq!(err.message(), "Read block idx failed");
}

#[test]
fn a_header_that_is_cut_short_says_which_field() {
    let whole = file(1, 1, &[], &[0]);
    assert_eq!(error_of(whole[..5].to_vec()).message(), "Read blocks failed");
    assert_eq!(error_of(whole[..9].to_vec()).message(), "Read width failed");
    assert_eq!(error_of(whole[..13].to_vec()).message(), "Read height failed");
}

#[test]
fn a_zero_ended_string_is_cut_at_its_zero() {
    let data = b"ab\0cd\0e";
    assert_eq!(read_zero_end_string(data, 0), Ok((&b"ab"[..], 3)));
    assert_eq!(read_zero_end_string(data, 1), Ok((&b"b"[..], 3)));
    assert_eq!(read_zero_end_string(data, 2), Ok((&b""[..], 3)));
    assert_eq!(read_zero_end_string(data, 3), Ok((&b"cd"[..], 6)));
    assert_eq!(read_zero_end_string(data, 6), Err(MapError::MissingTerminator));
    assert_eq!(read_zero_end_string(data, 7), Err(MapError::MissingTerminator));
}
