use lang_front::codemap::{BytePos, CodeMap};

#[test]
fn calc_line_offsets() {
    let codemap =
        CodeMap::from_string("test", "first line.\nsecond line.\nthird line.\n".into());
    assert_eq!(4, codemap.lines().len());
    assert_eq!(BytePos(0), codemap.lines()[0]);
    assert_eq!(BytePos(12), codemap.lines()[1]);
    assert_eq!(BytePos(25), codemap.lines()[2]);
    assert_eq!(BytePos(37), codemap.lines()[3]);
}

#[test]
fn line_starts_without_a_closing_entry() {
    let codemap = CodeMap::from_string(String::from("n"), "a\nb".into());
    assert_eq!(&vec![BytePos(0), BytePos(2)], codemap.lines());
    let empty = CodeMap::from_string("n", String::new());
    assert_eq!(&vec![BytePos(0)], empty.lines());
}

#[test]
fn the_invalid_position_is_the_greatest() {
    assert_eq!(BytePos(usize::MAX), BytePos::invalid());
    assert_eq!(BytePos(5), BytePos(2) + BytePos(3));
    assert_eq!(BytePos(1), BytePos(3) - BytePos(2));
}
