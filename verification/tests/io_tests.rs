use seglib::printer::{render_usize, Printer, IO};
use seglib::source::{parse_i64, parse_usize, Byte, Bytes, Chars, Isize1, Scanner, Source, Usize1};

#[test]
fn i_test() {
    let text = r"
            1 2 3 4 5
            6 7 8 9 10
            one two three
        ";
    let mut source = Source::new(text.as_bytes().to_vec());
    assert_eq!(source.read::<usize>(), Some(1));
    assert_eq!(source.read::<i64>(), Some(2));
    assert_eq!(source.read::<u64>(), Some(3));
    assert_eq!(source.read::<Byte>(), Some(b'4'));
    assert_eq!(source.read::<Byte>(), Some(b'5'));
    assert_eq!(source.vec::<u32>(5), Some(vec![6, 7, 8, 9, 10]));
    assert_eq!(source.next_token(), Some(b"one".to_vec()));
    assert_eq!(source.read::<Byte>(), Some(b't'));
    assert_eq!(source.read::<Chars>(), Some(vec![b'w', b'o']));
    assert_eq!(source.read::<Byte>(), Some(b't'));
    assert_eq!(source.read::<Bytes>(), Some(b"hree".to_vec()));
    assert!(source.finish());
}

#[test]
fn o_test() {
    let mut printer = Printer::new();
    printer.print_usize(1);
    printer.print("\n");
    printer.print_usize(2);
    printer.print("\n");
    printer.print_usize(3);
    let output = printer.output();
    assert_eq!(output.as_bytes(), b"1\n2\n3")
}

#[test]
fn parse_exact_values() {
    assert_eq!(parse_usize(&b"0".to_vec()), Some(0));
    assert_eq!(parse_usize(&b"18446744073709551615".to_vec()), Some(usize::MAX));
    assert_eq!(parse_usize(&b"18446744073709551616".to_vec()), None);
    assert_eq!(parse_usize(&b"".to_vec()), None);
    assert_eq!(parse_usize(&b"12a".to_vec()), None);
    assert_eq!(parse_usize(&b"10500".to_vec()), Some(10500));
    assert_eq!(parse_i64(&b"-42".to_vec()), Some(-42));
    assert_eq!(parse_i64(&b"42".to_vec()), Some(42));
    assert_eq!(parse_i64(&b"-9223372036854775808".to_vec()), Some(i64::MIN));
    assert_eq!(parse_i64(&b"9223372036854775807".to_vec()), Some(i64::MAX));
    assert_eq!(parse_i64(&b"9223372036854775808".to_vec()), None);
    assert_eq!(parse_i64(&b"-".to_vec()), None);
}

#[test]
fn source_markers_and_loading() {
    let mut source = Source::new(b"3 0 -7".to_vec());
    assert_eq!(source.read::<Usize1>(), Some(2));
    assert_eq!(source.read::<Usize1>(), None);
    assert_eq!(source.read::<Isize1>(), Some(-8));
    assert!(source.is_empty());
    let loaded = source.load(b"  hi  ".to_vec());
    assert_eq!(loaded, 6);
    assert_eq!(source.next_token(), Some(b"hi".to_vec()));
    assert_eq!(source.next_token(), None);
    let loaded = source.load_once(b"x y".to_vec());
    assert_eq!(loaded, 3);
    assert_eq!(source.next_char(), Some(b'x'));
    source.skip_while(|b: u8| b == b' ');
    assert_eq!(source.next_char(), Some(b'y'));
    assert!(source.finish());
}

#[test]
fn scanner_tokenizes_loads() {
    let mut scanner = Scanner::new();
    scanner.load(b" alpha beta \n gamma ".to_vec());
    assert_eq!(scanner.next_token(), Some(b"alpha".to_vec()));
    assert_eq!(scanner.next_token(), Some(b"beta".to_vec()));
    scanner.load(b"delta".to_vec());
    assert_eq!(scanner.next_token(), Some(b"gamma".to_vec()));
    assert_eq!(scanner.next_token(), Some(b"delta".to_vec()));
    assert_eq!(scanner.next_token(), None);
}

#[test]
fn io_round_trip() {
    let mut io = IO::new(b"2 10 20".to_vec());
    let n = io.read::<usize>().unwrap();
    let values = io.read_vec::<u64>(n).unwrap();
    assert_eq!(values, vec![10, 20]);
    io.write("sum");
    io.writeln(":");
    io.write("30");
    assert_eq!(io.output(), "sum:\n30");
}

#[test]
fn render_digits() {
    assert_eq!(render_usize(0), vec![0]);
    assert_eq!(render_usize(907), vec![9, 0, 7]);
}
