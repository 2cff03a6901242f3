use std::collections::HashMap;

use keeper::base58::base58_decode;
use keeper::molemath::{
    checked_add, checked_mul, checked_sub, mul_div_ceil, mul_div_floor, price_move_bps,
    signed_pnl_increment, MathError,
};
use keeper::ids::ids_of;
use keeper::order::{pubkey_le, stable_sort};
use keeper::table::Table;
use keeper::text::{
    chars_of, find_char, is_whitespace, lines, part, push_byte_list, push_decimal,
    push_decimal_int, same_bytes, same_chars, same_text, string_of, trim, width_of,
};
use keeper::wire::{
    put_bool, put_bytes, put_i64, put_u128, put_u16, put_u32, put_u64, put_u8, Reader, WireError,
};

#[test]
fn ceil_is_floor_or_one_more() {
    for (a, b, d) in [(0u128, 5u128, 3u128), (7, 11, 13), (1 << 100, 3, 7), (u128::MAX, 2, 3)] {
        let floor = mul_div_floor(a, b, d).unwrap();
        let ceil = mul_div_ceil(a, b, d).unwrap();
        assert!(ceil == floor || ceil == floor + 1);
    }
    assert_eq!(mul_div_ceil(u128::MAX, u128::MAX, u128::MAX).unwrap(), u128::MAX);
    assert_eq!(mul_div_ceil(1 << 100, 1 << 100, 1), Err(MathError::Overflow));
}

#[test]
fn mul_div_by_itself_is_identity() {
    for (a, d) in [(0u128, 1u128), (12, 7), (u128::MAX, u128::MAX), (u128::MAX, 3)] {
        assert_eq!(mul_div_floor(a, d, d).unwrap(), a);
        assert_eq!(mul_div_ceil(a, d, d).unwrap(), a);
    }
}

#[test]
fn gain_of_one_side_is_loss_of_the_other() {
    for (notional, p0, p1) in [(1_000u128, 100u64, 110u64), (7, 3, 2), (1 << 90, 5, 5)] {
        let long = signed_pnl_increment(1, notional, p0, p1).unwrap();
        let short = signed_pnl_increment(-1, notional, p0, p1).unwrap();
        assert_eq!(long, -short);
    }
}

#[test]
fn pnl_errors_are_told_apart() {
    assert_eq!(signed_pnl_increment(1, 10, 0, 5), Err(MathError::DivByZero));
    assert_eq!(signed_pnl_increment(1, u128::MAX, 1, u64::MAX), Err(MathError::Overflow));
    assert_eq!(signed_pnl_increment(1, u128::MAX, 1, 2), Err(MathError::SignOverflow));
}

#[test]
fn price_moves_in_basis_points() {
    assert_eq!(price_move_bps(100, 100), Ok(0));
    assert_eq!(price_move_bps(100, 101), Ok(100));
    assert_eq!(price_move_bps(100, 99), Ok(100));
    assert_eq!(price_move_bps(0, 5), Err(MathError::DivByZero));
    assert_eq!(price_move_bps(1, u64::MAX), Err(MathError::Overflow));
}

#[test]
fn checked_operations_report_overflow() {
    assert_eq!(checked_add(1, 2), Ok(3));
    assert_eq!(checked_add(u128::MAX, 1), Err(MathError::Overflow));
    assert_eq!(checked_sub(2, 2), Ok(0));
    assert_eq!(checked_sub(1, 2), Err(MathError::Overflow));
    assert_eq!(checked_mul(6, 7), Ok(42));
    assert_eq!(checked_mul(u128::MAX, 2), Err(MathError::Overflow));
}

#[test]
fn math_errors_have_texts() {
    for e in [MathError::Overflow, MathError::DivByZero, MathError::SignOverflow] {
        assert!(!e.to_string().is_empty());
    }
    assert_ne!(MathError::Overflow.to_string(), MathError::DivByZero.to_string());
}

#[test]
fn base58_reads_digits_and_leading_zeros() {
    assert_eq!(base58_decode(""), Ok(vec![]));
    assert_eq!(base58_decode("1"), Ok(vec![0]));
    assert_eq!(base58_decode("2"), Ok(vec![1]));
    assert_eq!(base58_decode("z"), Ok(vec![57]));
    assert_eq!(base58_decode("21"), Ok(vec![58]));
    assert_eq!(base58_decode("112"), Ok(vec![0, 0, 1]));
    assert_eq!(base58_decode("StV1DL6CwTryKyV"), Ok(b"hello world".to_vec()));
    assert_eq!(base58_decode(" 1 1\t2"), Ok(vec![0, 0, 1]));
    for bad in ["0", "O", "I", "l", "é"] {
        assert_eq!(base58_decode(bad), Err(format!("non-base58 character `{bad}`")));
    }
}

#[test]
fn addresses_are_ordered_by_their_bytes() {
    let mut a = [0u8; 32];
    let mut b = [0u8; 32];
    assert!(pubkey_le(&a, &b) && pubkey_le(&b, &a));
    b[31] = 1;
    assert!(pubkey_le(&a, &b) && !pubkey_le(&b, &a));
    a[0] = 1;
    assert!(!pubkey_le(&a, &b) && pubkey_le(&b, &a));
}

#[test]
fn sorting_numbers() {
    assert_eq!(stable_sort(vec![3u32, 1, 2, 1]), vec![1, 1, 2, 3]);
    assert_eq!(stable_sort(vec![5i64, -7, 0]), vec![-7, 0, 5]);
    assert_eq!(stable_sort(Vec::<u32>::new()), Vec::<u32>::new());
}

#[test]
fn table_keeps_one_value_for_a_key() {
    let mut t: Table<[u8; 32], &str> = Table::new();
    let (seven, eight, nine) = ([7u8; 32], [8u8; 32], [9u8; 32]);
    assert!(t.is_empty());
    t.insert(seven, "a");
    t.insert(nine, "b");
    t.insert(seven, "c");
    assert_eq!(t.len(), 2);
    assert_eq!(t.get(&seven), Some(&"c"));
    assert!(t.contains_key(&nine));
    assert!(!t.contains_key(&eight));
    let mut keys: Vec<[u8; 32]> = (0..t.len()).map(|i| t.entry_at(i).0).collect();
    keys.sort();
    assert_eq!(keys, vec![seven, nine]);
    assert_eq!(t.remove(&seven), Some("c"));
    assert_eq!(t.remove(&seven), None);
    assert_eq!(t.len(), 1);
    t.clear();
    assert!(t.is_empty());
}

#[test]
fn ids_of_a_map_come_once_each() {
    let mut m: HashMap<u32, &str> = HashMap::new();
    assert!(ids_of(&m).is_empty());
    m.insert(9, "b");
    m.insert(7, "a");
    m.insert(9, "c");
    let mut ids = ids_of(&m);
    ids.sort();
    assert_eq!(ids, vec![7, 9]);
}

#[test]
fn decimal_numerals() {
    let mut out = String::new();
    push_decimal(&mut out, 0);
    out.push(' ');
    push_decimal(&mut out, u128::MAX);
    out.push(' ');
    push_decimal_int(&mut out, i64::MIN);
    out.push(' ');
    push_decimal_int(&mut out, 42);
    assert_eq!(out, format!("0 {} {} 42", u128::MAX, i64::MIN));
}

#[test]
fn byte_lists() {
    let mut out = String::new();
    push_byte_list(&mut out, &[1, 0, 255]);
    assert_eq!(out, format!("{:?}", [1u8, 0, 255]));
    let mut empty = String::new();
    push_byte_list(&mut empty, &[]);
    assert_eq!(empty, "[]");
}

#[test]
fn characters_of_a_text() {
    let chars = chars_of(" a\tö ");
    assert_eq!(chars, vec![' ', 'a', '\t', 'ö', ' ']);
    assert_eq!(string_of(&chars, 1, 4), "a\tö");
    assert_eq!(part(&chars, 0, 2), vec![' ', 'a']);
    assert_eq!(trim(&chars, 0, 5), vec!['a', '\t', 'ö']);
    assert_eq!(trim(&chars, 4, 5), Vec::<char>::new());
    assert_eq!(find_char(&chars, 'ö', 0), 3);
    assert_eq!(find_char(&chars, 'x', 0), 5);
    assert_eq!(find_char(&chars, ' ', 1), 4);
}

#[test]
fn whitespace_agrees_with_unicode() {
    for c in (0u32..0x11_0000).filter_map(char::from_u32) {
        assert_eq!(is_whitespace(c), c.is_whitespace());
        assert_eq!(width_of(c), c.len_utf8());
    }
}

#[test]
fn lines_agree_with_str_lines() {
    for text in ["", "a", "a\n", "a\nb", "a\r\nb\r\n", "\n\n", "a\r", "\r\n", "a\rb\n"] {
        let got: Vec<String> =
            lines(&chars_of(text)).iter().map(|l| l.iter().collect()).collect();
        let want: Vec<String> = text.lines().map(|l| l.to_string()).collect();
        assert_eq!(got, want, "{text:?}");
    }
}

#[test]
fn texts_and_bytes_compare_by_content() {
    assert!(same_text("abc", "abc"));
    assert!(!same_text("abc", "abd"));
    assert!(!same_text("abc", "ab"));
    assert!(same_chars(&vec!['a'], &vec!['a']));
    assert!(!same_chars(&vec!['a'], &vec![]));
    assert!(same_bytes(&[1, 2], &[1, 2]));
    assert!(!same_bytes(&[1, 2], &[2, 1]));
}

#[test]
fn reader_reads_back_what_was_put() {
    let mut out = Vec::new();
    put_u8(&mut out, 7);
    put_bool(&mut out, true);
    put_u16(&mut out, 0x1234);
    put_u32(&mut out, 0x1234_5678);
    put_u64(&mut out, u64::MAX - 1);
    put_u128(&mut out, 1 << 100);
    put_i64(&mut out, -5);
    put_bytes(&mut out, &[9, 8, 7, 6]);
    let mut r = Reader::new(&out);
    assert_eq!(r.read_u8(), Ok(7));
    assert_eq!(r.read_bool(), Ok(true));
    assert_eq!(r.read_u16(), Ok(0x1234));
    assert_eq!(r.read_u32(), Ok(0x1234_5678));
    assert_eq!(r.read_u64(), Ok(u64::MAX - 1));
    assert_eq!(r.read_u128(), Ok(1 << 100));
    assert_eq!(r.read_i64(), Ok(-5));
    assert_eq!(r.finish(), Err(WireError::NotAllBytesRead));
    assert_eq!(r.read_array::<2>(), Ok([9, 8]));
    assert_eq!(r.read_slice(2), Ok(&[7u8, 6][..]));
    assert_eq!(r.finish(), Ok(()));
    assert_eq!(r.read_u8(), Err(WireError::UnexpectedLength));
}

#[test]
fn numbers_are_little_endian() {
    let mut out = Vec::new();
    put_u16(&mut out, 0x0102);
    put_i64(&mut out, -2);
    put_u128(&mut out, 3);
    let mut want = 0x0102u16.to_le_bytes().to_vec();
    want.extend((-2i64).to_le_bytes());
    want.extend(3u128.to_le_bytes());
    assert_eq!(out, want);
}

#[test]
fn only_zero_and_one_are_bools() {
    assert_eq!(Reader::new(&[0]).read_bool(), Ok(false));
    assert_eq!(Reader::new(&[2]).read_bool(), Err(WireError::InvalidBool(2)));
}

#[test]
fn wire_errors_have_texts() {
    let errors = [
        WireError::UnexpectedLength,
        WireError::InvalidBool(2),
        WireError::NotAllBytesRead,
        WireError::ListTooLong,
    ];
    for e in errors {
        assert!(!e.to_string().is_empty());
    }
}
