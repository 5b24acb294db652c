use slice_string::Error;
use slice_string::SliceString;

#[test]
fn new() {
    let mut buf = [0u8; 16];
    let mut s = SliceString::new(&mut buf[..]);
    assert_eq!(0, s.len());
    assert_eq!(s.capacity(), 16);

    s.push_str("Hello world!").unwrap();
    assert_eq!(s.as_str(), "Hello world!");

    assert!(!s.is_empty());
    s.clear();
    assert_eq!(s.len(), 0);

    s.push_str("foo").unwrap();
    s.truncate(2);
    assert_eq!(s.len(), 2);
    assert_eq!(s.as_str(), "fo");

    s.push('r').unwrap();
    assert_eq!(s.as_str(), "for");

    s.push_str("oooooooooooooooooooooo").unwrap_err();

    let mut a = s.split_off(2);
    assert_eq!(s.as_str(), "fo");
    assert_eq!(a.as_str(), "r");

    a.push_str("ab").unwrap();
    s.push_str("").unwrap();
    s.push('o').unwrap_err();
    assert_eq!(s.capacity(), 2);
    assert_eq!(a.capacity(), 16 - 2);

    let r = s.as_mut_slicevec();
    assert_eq!(r.as_slice(), "fo".as_bytes());

    assert_eq!(s.pop().unwrap(), 'o');
    assert_eq!(s.pop().unwrap(), 'f');
}

#[test]
fn cmp() {
    let mut b1 = "abcd".as_bytes().to_owned();
    let s1 = SliceString::try_from(&mut b1[..]).unwrap();
    let mut b2 = "zzzz".as_bytes().to_owned();
    let s2 = SliceString::try_from(&mut b2[..]).unwrap();
    assert!(s1 < s2);
}

#[test]
fn disp() {
    let mut b1 = "abcd".as_bytes().to_owned();
    let s1 = SliceString::try_from(&mut b1[..]).unwrap();
    let s = s1.to_string();
    assert_eq!("abcd", s);
}

#[test]
fn pop_uenc() {
    let mut b = "\u{e9}e\u{301}".as_bytes().to_owned();
    assert_eq!(b.len(), 2 + 3);
    let mut s = SliceString::try_from(&mut b[..]).unwrap();
    assert_eq!(s.len(), 2 + 3);
    assert_eq!(s.pop().unwrap(), '\u{0301}');
    assert_eq!(s.len(), 2 + 1);
    assert_eq!(s.pop().unwrap(), 'e');
    assert_eq!(s.len(), 2);
    assert_eq!(s.pop().unwrap(), '\u{e9}');
    assert_eq!(s.len(), 0);
    s.push('\u{f6}').unwrap();
    s.push_str("\u{fc}").unwrap();
    assert_eq!(s.as_str(), "\u{f6}\u{fc}");
}

#[test]
fn hello_world_fits_then_overflows() {
    let mut buf = [0u8; 16];
    let mut s = SliceString::new(&mut buf[..]);
    assert_eq!(s.push_str("Hello world!"), Ok(()));
    assert_eq!(s.as_str(), "Hello world!");
    assert_eq!(s.len(), 12);

    assert_eq!(
        s.push_str("oooooooooooooooooooooo"),
        Err(Error::CapacityExceeded)
    );
    assert_eq!(s.as_str(), "Hello world!");
    assert_eq!(s.len(), 12);
    assert_eq!(s.capacity(), 16);
}

#[test]
fn truncate_then_push() {
    let mut buf = [0u8; 16];
    let mut s = SliceString::new(&mut buf[..]);
    s.push_str("foo").unwrap();
    s.truncate(2);
    assert_eq!(s.as_str(), "fo");
    s.push('r').unwrap();
    assert_eq!(s.as_str(), "for");
}

#[test]
fn split_partitions_capacity() {
    let mut buf = [0u8; 16];
    let mut s = SliceString::new(&mut buf[..]);
    s.push_str("for").unwrap();
    let a = s.split_off(2);
    assert_eq!(s.as_str(), "fo");
    assert_eq!(s.capacity(), 2);
    assert_eq!(a.as_str(), "r");
    assert_eq!(a.capacity(), 14);
    assert_eq!(s.capacity() + a.capacity(), 16);
}

#[test]
fn split_past_len_gives_empty_tail() {
    let mut buf = [0u8; 8];
    let mut s = SliceString::new(&mut buf[..]);
    s.push_str("fo").unwrap();
    let a = s.split_off(5);
    assert_eq!(s.as_str(), "fo");
    assert_eq!(s.capacity(), 5);
    assert_eq!(a.as_str(), "");
    assert_eq!(a.capacity(), 3);
}

#[test]
fn split_at_zero_moves_everything() {
    let mut buf = [0u8; 4];
    let mut s = SliceString::new(&mut buf[..]);
    s.push_str("hi").unwrap();
    let a = s.split_off(0);
    assert_eq!(s.as_str(), "");
    assert_eq!(s.capacity(), 0);
    assert_eq!(a.as_str(), "hi");
    assert_eq!(a.capacity(), 4);
}

#[test]
fn one_byte_region() {
    let mut buf = [0u8; 1];
    let mut s = SliceString::new(&mut buf[..]);
    assert_eq!(s.push('f'), Ok(()));
    assert_eq!(s.len(), 1);
    assert_eq!(s.capacity(), 1);
    assert_eq!(s.push('o'), Err(Error::CapacityExceeded));
    assert_eq!(s.as_str(), "f");
}

#[test]
fn multibyte_push_needs_room_for_all_bytes() {
    let mut buf = [0u8; 1];
    let mut s = SliceString::new(&mut buf[..]);
    // U+00E9 encodes as two bytes, one too many for this region.
    assert_eq!(s.push('\u{e9}'), Err(Error::CapacityExceeded));
    assert_eq!(s.len(), 0);
    let mut buf2 = [0u8; 2];
    let mut t = SliceString::new(&mut buf2[..]);
    assert_eq!(t.push('\u{e9}'), Ok(()));
    assert_eq!(t.as_bytes(), &[0xC3, 0xA9][..]);
}

#[test]
fn bind_checked_round_trip() {
    let mut region = [b'h', b'e', b'l', b'l', b'o', 0xFF, 0xFF];
    let s = SliceString::from_utf8(&mut region[..], 5).unwrap();
    assert_eq!(s.as_str(), "hello");
    assert_eq!(s.as_bytes(), &b"hello"[..]);
    assert_eq!(s.len(), 5);
    assert_eq!(s.capacity(), 7);
}

#[test]
fn bind_checked_rejects_invalid_and_keeps_bytes() {
    let mut region = [0xFFu8, 0x00, 0x41];
    match SliceString::from_utf8(&mut region[..], 3) {
        Ok(_) => panic!("0xFF can never start a scalar encoding"),
        Err(e) => assert_eq!(e, Error::InvalidEncoding),
    }
    // The region still belongs to the caller, bytes untouched.
    assert_eq!(region, [0xFFu8, 0x00, 0x41]);
}

#[test]
fn bind_checked_ignores_bytes_past_len() {
    // The same junk byte is fine when it sits past the checked prefix.
    let mut region = [b'o', b'k', 0xFF];
    let s = SliceString::from_utf8(&mut region[..], 2).unwrap();
    assert_eq!(s.as_str(), "ok");
    assert_eq!(s.capacity(), 3);
}

#[test]
fn validation_rejects_overlong_and_surrogates() {
    // Overlong two-byte encoding of '/'.
    assert!(SliceString::try_from(&mut [0xC0u8, 0xAF][..]).is_err());
    // Overlong three-byte encoding of NUL.
    assert!(SliceString::try_from(&mut [0xE0u8, 0x80, 0x80][..]).is_err());
    // A surrogate codepoint, U+D800.
    assert!(SliceString::try_from(&mut [0xEDu8, 0xA0, 0x80][..]).is_err());
    // A codepoint past U+10FFFF.
    assert!(SliceString::try_from(&mut [0xF4u8, 0x90, 0x80, 0x80][..]).is_err());
    // A leading byte with no continuation.
    assert!(SliceString::try_from(&mut [0xC3u8][..]).is_err());
    // A continuation byte on its own.
    assert!(SliceString::try_from(&mut [0x80u8][..]).is_err());
}

#[test]
fn validation_accepts_all_widths() {
    // One scalar of each encoded width: 'A', U+00E9, U+20AC, U+10348.
    let mut bytes = "A\u{e9}\u{20ac}\u{10348}".as_bytes().to_owned();
    let mut s = SliceString::try_from(&mut bytes[..]).unwrap();
    assert_eq!(s.len(), 1 + 2 + 3 + 4);
    assert_eq!(s.pop().unwrap(), '\u{10348}');
    assert_eq!(s.pop().unwrap(), '\u{20ac}');
    assert_eq!(s.pop().unwrap(), '\u{e9}');
    assert_eq!(s.pop().unwrap(), 'A');
    assert_eq!(s.pop(), None);
}

#[test]
fn pop_on_empty_is_none() {
    let mut buf = [0u8; 4];
    let mut s = SliceString::new(&mut buf[..]);
    assert_eq!(s.pop(), None);
    assert_eq!(s.len(), 0);
    assert_eq!(s.capacity(), 4);
}

#[test]
fn truncate_past_len_is_noop() {
    let mut buf = [0u8; 8];
    let mut s = SliceString::new(&mut buf[..]);
    s.push_str("abc").unwrap();
    s.truncate(7);
    assert_eq!(s.as_str(), "abc");
    s.truncate(3);
    assert_eq!(s.as_str(), "abc");
}

#[test]
fn boundary_queries() {
    let mut buf = [0u8; 8];
    let mut s = SliceString::new(&mut buf[..]);
    s.push_str("a\u{e9}b").unwrap();
    // Content bytes: 'a', 0xC3, 0xA9, 'b'.
    assert!(s.is_char_boundary(0));
    assert!(s.is_char_boundary(1));
    assert!(!s.is_char_boundary(2));
    assert!(s.is_char_boundary(3));
    assert!(s.is_char_boundary(4));
    assert!(!s.is_char_boundary(5));
}

#[test]
fn equality_ignores_capacity() {
    let mut buf1 = [0u8; 4];
    let mut a = SliceString::new(&mut buf1[..]);
    a.push_str("ab").unwrap();
    let mut buf2 = [0u8; 9];
    let mut b = SliceString::new(&mut buf2[..]);
    b.push_str("ab").unwrap();
    assert!(a == b);
    b.push('c').unwrap();
    assert!(a != b);
}

#[test]
fn ordering_is_lexicographic() {
    let mut buf1 = [0u8; 4];
    let mut a = SliceString::new(&mut buf1[..]);
    a.push_str("ab").unwrap();
    let mut buf2 = [0u8; 4];
    let mut b = SliceString::new(&mut buf2[..]);
    b.push_str("abc").unwrap();
    // A strict prefix comes first, then the first differing byte decides.
    assert!(a < b);
    assert!(b > a);
    let mut buf3 = [0u8; 4];
    let mut c = SliceString::new(&mut buf3[..]);
    c.push_str("ac").unwrap();
    assert!(b < c);
    assert!(a <= a);
}

#[test]
fn eq_str_matches_content() {
    let mut buf = [0u8; 8];
    let mut s = SliceString::new(&mut buf[..]);
    s.push_str("fo\u{e9}").unwrap();
    assert!(s.eq_str("fo\u{e9}"));
    assert!(!s.eq_str("fo"));
    assert!(!s.eq_str("fo\u{e9}x"));
}

#[test]
fn slicevec_round_trip() {
    let mut buf = [0u8; 6];
    let mut s = SliceString::new(&mut buf[..]);
    s.push_str("hey").unwrap();
    let sv = s.into_slicevec();
    assert_eq!(sv.len(), 3);
    assert_eq!(sv.capacity(), 6);
    assert_eq!(sv.as_slice(), &b"hey"[..]);
    let again = SliceString::try_from_slicevec(sv).unwrap();
    assert_eq!(again.as_str(), "hey");
    assert_eq!(again.capacity(), 6);
}

#[test]
fn slicevec_rejects_invalid_content() {
    let mut buf = [0xC3u8, 0x28];
    let sv = tinyvec::SliceVec::from_slice_len(&mut buf[..], 2);
    match SliceString::try_from_slicevec(sv) {
        Ok(_) => panic!("0xC3 0x28 is not valid UTF-8"),
        Err(e) => assert_eq!(e, Error::InvalidEncoding),
    }
}

#[test]
fn mutable_slicevec_escape_hatch() {
    let mut buf = [0u8; 4];
    let mut s = SliceString::new(&mut buf[..]);
    s.push_str("ab").unwrap();
    {
        let sv = s.as_mut_slicevec();
        // The caller's obligation: whatever is written must stay valid UTF-8.
        sv.push(b'c');
    }
    assert_eq!(s.as_str(), "abc");
    assert_eq!(s.capacity(), 4);
}

#[test]
fn unchecked_bind_from_proved_bytes() {
    // The unchecked constructors carry their UTF-8 obligation statically;
    // from unverified code they are simply binds that skip the check.
    let mut region = *b"abc\xFF";
    let s = SliceString::from_utf8_unchecked(&mut region[..], 3);
    assert_eq!(s.as_str(), "abc");
    assert_eq!(s.capacity(), 4);
    let mut buf = *b"xy";
    let sv = tinyvec::SliceVec::from_slice_len(&mut buf[..], 2);
    let t = SliceString::new_unchecked(sv);
    assert_eq!(t.as_str(), "xy");
}

#[test]
fn default_is_empty_with_no_capacity() {
    let mut s = SliceString::default();
    assert_eq!(s.len(), 0);
    assert_eq!(s.capacity(), 0);
    assert_eq!(s.push('a'), Err(Error::CapacityExceeded));
}

#[test]
fn clear_keeps_capacity() {
    let mut buf = [0u8; 5];
    let mut s = SliceString::new(&mut buf[..]);
    s.push_str("abcde").unwrap();
    s.clear();
    assert_eq!(s.len(), 0);
    assert_eq!(s.capacity(), 5);
    s.push_str("xyz").unwrap();
    assert_eq!(s.as_str(), "xyz");
}
