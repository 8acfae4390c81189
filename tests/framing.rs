use statusfeed::{Block, Blocks, Failure, Framing};

const DATA: &[u8] = b"[{\"full_text\":\"test\",\"color\":\"black\"},{\"full_text\":\"block2\",\"color\":\"red\"}]";

fn padded(prefix: &[u8], body: &[u8], suffix: &[u8], zeros: usize) -> Vec<u8> {
    let mut v = Vec::new();
    v.extend_from_slice(prefix);
    v.extend_from_slice(body);
    v.extend_from_slice(suffix);
    v.extend(std::iter::repeat(0u8).take(zeros));
    v
}

fn line(framing: Framing, data: &[u8]) -> String {
    Blocks::from_chunk(framing, data).unwrap().to_string()
}

#[test]
fn test_trim_comma() {
    assert_eq!(b"bla", Blocks::trim_comma(b"bla,"));
    assert_eq!(b"bla", Blocks::trim_comma(b",bla"));
    assert_eq!(b"bla", Blocks::trim_comma(b",bla,"));
    assert_eq!(b"bla", Blocks::trim_comma(b"bla"));
}

#[test]
fn test_trim_trailing_zeroes() {
    assert_eq!([1u8, 2, 3], Blocks::trim_trailing_zeroes(&[1, 2, 3, 0, 0]));
    assert_eq!([1u8, 2, 3], Blocks::trim_trailing_zeroes(&[1, 2, 3]));
}

#[test]
fn test_parse_blocks() {
    let block1 = Block {
        full_text: String::from("test"),
        color: String::from("black"),
    };
    let block2 = Block {
        full_text: String::from("block2"),
        color: String::from("red"),
    };
    let blocks = Blocks(vec![block1, block2]);
    let data = DATA;
    let mut data2 = [0; 1024];
    let mut data3 = [0; 1024];
    data2[..data.len()].clone_from_slice(data);
    data3[..data.len()].clone_from_slice(data);
    data3[data.len()] = b',';

    assert_eq!(blocks.to_string(), Blocks::from_json(data).unwrap().to_string());
    assert_eq!(blocks.to_string(), Blocks::from_json(&data2).unwrap().to_string());
    assert_eq!(blocks.to_string(), Blocks::from_json(&data3).unwrap().to_string());
}

#[test]
fn trim_edges() {
    assert_eq!(b"", Blocks::trim_comma(b""));
    assert_eq!(b"", Blocks::trim_comma(b","));
    assert_eq!(b",", Blocks::trim_comma(b",,,"));
    assert_eq!(b"", Blocks::trim_trailing_zeroes(&[0, 0, 0]));
    assert_eq!(b"", Blocks::trim_trailing_zeroes(&[]));
    assert_eq!([0u8, 1], Blocks::trim_trailing_zeroes(&[0, 1, 0]));
}

#[test]
fn last_block_of_two_arrays_is_the_second() {
    let chunk = b"[{\"a\":1}][{\"b\":2}]\0\0";
    assert_eq!(b"[{\"b\":2}]", Blocks::get_last_block(chunk).unwrap());
    let line = Blocks::from_json(
        b"[{\"full_text\":\"old\",\"color\":\"x\"}],[{\"full_text\":\"new\",\"color\":\"y\"}]",
    )
    .unwrap()
    .to_string();
    assert_eq!("new ", line);
}

#[test]
fn last_block_skips_a_leading_fragment() {
    let chunk = b"xt\":\"half\"}],[{\"full_text\":\"whole\",\"color\":\"red\"}]\0";
    assert_eq!("whole ", Blocks::from_json(chunk).unwrap().to_string());
}

#[test]
fn last_block_failures() {
    assert!(matches!(Blocks::get_last_block(b""), Err(Failure::FrameNotFound)));
    assert!(matches!(Blocks::get_last_block(b"[{\"a\":1}"), Err(Failure::FrameNotFound)));
    assert!(matches!(Blocks::get_last_block(b"}]"), Err(Failure::FrameNotFound)));
    assert_eq!(b"[]", Blocks::get_last_block(b"[]").unwrap());
}

#[test]
fn padded_frames_are_recovered() {
    for framing in [Framing::Trim, Framing::LastBracket] {
        for zeros in [0usize, 1, 5, 900] {
            assert_eq!("test block2 ", line(framing, &padded(b"", DATA, b"", zeros)));
        }
    }
}

#[test]
fn comma_framed_frames_are_recovered() {
    for framing in [Framing::Trim, Framing::LastBracket] {
        for (pre, post) in [(&b","[..], &b""[..]), (b"", b","), (b",", b",")] {
            for zeros in [0usize, 3] {
                assert_eq!("test block2 ", line(framing, &padded(pre, DATA, post, zeros)));
            }
        }
    }
}

#[test]
fn empty_and_null_chunks_fail_softly() {
    for framing in [Framing::Trim, Framing::LastBracket] {
        assert!(matches!(Blocks::from_chunk(framing, b""), Err(Failure::FrameNotFound)));
        assert!(matches!(Blocks::from_chunk(framing, &[0u8; 2048]), Err(Failure::FrameNotFound)));
        assert!(matches!(framing.extract(&[0u8; 16]), Err(Failure::FrameNotFound)));
    }
}

#[test]
fn trim_framing_hands_malformed_rest_to_the_decoder() {
    assert_eq!(b"{x}", Framing::Trim.extract(b",{x},\0\0").unwrap());
    assert!(matches!(Blocks::from_chunk(Framing::Trim, b",{x},\0"), Err(Failure::InvalidJson)));
}
