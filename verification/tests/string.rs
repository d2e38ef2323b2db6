use ffi_utils::string::expose_string;
use ffi_utils::string::read_c_str;
use ffi_utils::string::StringArray;
use ffi_utils::string::StringArrayIter;
use ffi_utils::string::StringReader;
use ffi_utils::Error;
use ffi_utils::IntoStringError;
use ffi_utils::NulError;

fn strcpy(target: &mut [u8], source: &[u8]) {
    target[..source.len()].copy_from_slice(source);
}

fn drain(mut iter: StringArrayIter) -> Vec<Result<String, Error>> {
    let mut yielded = Vec::new();
    while let Some(item) = iter.next() {
        yielded.push(item);
    }
    yielded
}

fn raw(slots: &[Option<&[u8]>]) -> Vec<Option<Vec<u8>>> {
    slots.iter().map(|slot| slot.map(|bytes| bytes.to_vec())).collect()
}

#[test]
fn test_read_and_write_string() {
    let input = "test";
    let ptr = expose_string(input.into()).unwrap();
    let mut reader = StringReader::new(input.len());
    let copy_ptr = reader.get_target();
    strcpy(copy_ptr, &ptr);
    let result = reader.into_string().unwrap();
    assert_eq!(result, input);
}

#[test]
fn test_read_and_write_string_array() {
    let array = StringArray::new(&["a", "b", "c"]).unwrap();
    let ptr = array.into_raw();
    let array = StringArray::from_raw(Some(ptr), true);
    let items: Vec<String> = drain(array.into_iter()).into_iter().map(|x| x.unwrap()).collect();
    assert_eq!(items, vec!["a", "b", "c"]);
}

#[test]
fn test_drop_string_array() {
    let array = StringArray::new(&["a", "b", "c"]).unwrap();
    let ptr = array.into_raw();
    let mut array = StringArray::from_raw(Some(ptr.clone()), false);
    array.free();
    assert!(!array.has_dropped());
    let mut array = StringArray::from_raw(Some(ptr), true);
    array.free();
    assert!(array.has_dropped());
}

#[test]
#[should_panic]
fn test_string_array_from_raw_null() {
    let _ = StringArray::from_raw(None, true);
}

#[test]
fn expose_string_appends_the_terminator() {
    assert_eq!(expose_string(b"test".to_vec()).unwrap(), vec![116, 101, 115, 116, 0]);
    assert_eq!(expose_string(Vec::new()).unwrap(), vec![0]);
    assert_eq!(expose_string("é".into()).unwrap(), vec![0xc3, 0xa9, 0]);
}

#[test]
fn expose_string_refuses_a_zero_byte() {
    match expose_string(b"ab\0cd\0".to_vec()) {
        Err(Error::NulByte(NulError { position, bytes })) => {
            assert_eq!(position, 2);
            assert_eq!(bytes, b"ab\0cd\0".to_vec());
        }
        other => panic!("{:?}", other),
    }
    match expose_string(vec![0]) {
        Err(Error::NulByte(err)) => assert_eq!(err.position, 0),
        other => panic!("{:?}", other),
    }
    match expose_string(b"abc\0".to_vec()) {
        Err(Error::NulByte(err)) => assert_eq!(err.position, 3),
        other => panic!("{:?}", other),
    }
}

#[test]
fn read_c_str_stops_at_the_first_zero_byte() {
    assert_eq!(read_c_str(b"ab\0cd\0").unwrap(), "ab");
    assert_eq!(read_c_str(b"\0ab").unwrap(), "");
    assert_eq!(read_c_str(b"").unwrap(), "");
}

#[test]
fn read_c_str_reads_an_unterminated_buffer_to_its_end() {
    assert_eq!(read_c_str(b"abc").unwrap(), "abc");
}

#[test]
fn read_c_str_decodes_utf8() {
    let buffer = expose_string("grüße, мир, 世界".into()).unwrap();
    assert_eq!(read_c_str(&buffer).unwrap(), "grüße, мир, 世界");
}

#[test]
fn read_c_str_refuses_what_is_not_utf8() {
    match read_c_str(&[b'a', b'b', 0xff, b'c', 0]) {
        Err(Error::Utf8(err)) => assert_eq!(err.valid_up_to(), 2),
        other => panic!("{:?}", other),
    }
    // invalid bytes behind the terminator are not part of the string
    assert_eq!(read_c_str(&[b'a', 0, 0xff]).unwrap(), "a");
    // a sequence cut short by the terminator
    assert!(matches!(read_c_str(&[0xe4, 0xb8, 0, 0x96]), Err(Error::Utf8(_))));
}

#[test]
fn reader_that_nobody_wrote_to_holds_the_empty_string() {
    assert_eq!(StringReader::new(16).into_string().unwrap(), "");
    assert_eq!(StringReader::new(0).into_string_opt().unwrap(), Some(String::new()));
}

#[test]
fn reader_has_room_for_the_length_and_a_terminator() {
    let mut reader = StringReader::new(4);
    assert_eq!(reader.get_target().len(), 5);
    assert!(reader.get_target().iter().all(|byte| *byte == 0));
    let mut reader = StringReader::new(0);
    assert_eq!(reader.get_target().len(), 1);
}

#[test]
fn reader_hands_out_the_same_buffer_each_time() {
    let mut reader = StringReader::new(8);
    let first = reader.get_target().as_ptr();
    strcpy(reader.get_target(), b"one\0");
    let second = reader.get_target().as_ptr();
    assert_eq!(first, second);
    assert_eq!(&reader.get_target()[..4], b"one\0");
    strcpy(reader.get_target(), b"last\0");
    assert_eq!(reader.into_string().unwrap(), "last");
}

#[test]
fn reader_reads_up_to_the_terminator() {
    let mut reader = StringReader::new(8);
    strcpy(reader.get_target(), b"ab\0cd\0");
    assert_eq!(reader.into_string_opt().unwrap(), Some("ab".to_string()));
}

#[test]
fn reader_filled_to_the_brim_is_read_to_its_end() {
    let mut reader = StringReader::new(2);
    strcpy(reader.get_target(), b"xyz");
    assert_eq!(reader.into_string().unwrap(), "xyz");
}

#[test]
fn reader_refuses_what_is_not_utf8() {
    let mut reader = StringReader::new(4);
    strcpy(reader.get_target(), &[0xc3, 0x28, 0]);
    match reader.into_string() {
        Err(Error::Utf8(err)) => assert_eq!(err.valid_up_to(), 0),
        other => panic!("{:?}", other),
    }
    let mut reader = StringReader::new(4);
    strcpy(reader.get_target(), &[b'o', b'k', 0x80, 0]);
    match reader.into_string_opt() {
        Err(Error::Utf8(err)) => assert_eq!(err.valid_up_to(), 2),
        other => panic!("{:?}", other),
    }
}

#[test]
fn string_array_holds_one_exposed_string_per_item_and_a_null_slot() {
    let array = StringArray::new(&["a", "bc", ""]).unwrap();
    assert!(array.should_drop());
    assert!(!array.has_dropped());
    let expected = raw(&[Some(b"a\0"), Some(b"bc\0"), Some(b"\0"), None]);
    assert_eq!(array.as_slots(), &expected[..]);
    assert_eq!(array.into_raw(), expected);
}

#[test]
fn string_array_of_nothing_is_a_single_null_slot() {
    let array = StringArray::new(&[]).unwrap();
    assert_eq!(array.as_slots(), &[None][..]);
    assert!(drain(array.into_iter()).is_empty());
}

#[test]
fn string_array_round_trip() {
    let array = StringArray::new(&["a", "b", "c"]).unwrap();
    let items: Vec<String> = drain(array.into_iter()).into_iter().map(|x| x.unwrap()).collect();
    assert_eq!(items, vec!["a", "b", "c"]);
}

#[test]
fn string_array_refuses_the_first_item_with_a_zero_byte() {
    match StringArray::new(&["fine", "a\0b", "\0"]) {
        Err(Error::NulByte(err)) => {
            assert_eq!(err.position, 1);
            assert_eq!(err.bytes, b"a\0b".to_vec());
        }
        Err(other) => panic!("{:?}", other),
        Ok(_) => panic!("an array was made"),
    }
}

#[test]
fn free_releases_once() {
    let mut array = StringArray::new(&["a"]).unwrap();
    assert!(array.free());
    assert!(array.has_dropped());
    assert!(!array.free());
    assert!(!array.free());
    assert!(array.has_dropped());
    assert!(array.should_drop());
}

#[test]
fn wrapper_that_does_not_own_releases_nothing() {
    let ptr = StringArray::new(&["a", "b"]).unwrap().into_raw();
    let mut borrowed = StringArray::from_raw(Some(ptr.clone()), false);
    assert!(!borrowed.should_drop());
    assert!(!borrowed.free());
    assert!(!borrowed.free());
    assert!(!borrowed.has_dropped());
    let mut owner = StringArray::from_raw(Some(ptr), true);
    assert!(owner.free());
    assert!(!owner.free());
    assert!(owner.has_dropped());
}

#[test]
fn raw_round_trip_releases_once() {
    let ptr = StringArray::new(&["x", "y", "z"]).unwrap().into_raw();
    let mut iter = StringArray::from_raw(Some(ptr), true).into_iter();
    let mut items = Vec::new();
    while let Some(item) = iter.next() {
        items.push(item.unwrap());
    }
    assert_eq!(items, vec!["x", "y", "z"]);
    assert!(iter.next().is_none());
    assert!(iter.free());
    assert!(!iter.free());
}

#[test]
fn iterator_dropped_early_releases_once() {
    let mut iter = StringArrayIter::new(StringArray::new(&["x", "y"]).unwrap());
    assert_eq!(iter.next().unwrap().unwrap(), "x");
    assert!(iter.free());
    assert!(!iter.free());
}

#[test]
fn iterator_over_a_borrowed_array_releases_nothing() {
    let ptr = raw(&[Some(b"x\0"), None]);
    let mut iter = StringArray::from_raw(Some(ptr), false).into_iter();
    assert_eq!(iter.next().unwrap().unwrap(), "x");
    assert!(iter.next().is_none());
    assert!(!iter.free());
}

#[test]
fn iteration_goes_on_behind_an_element_that_is_not_utf8() {
    let ptr = raw(&[Some(b"a\0"), Some(&[0xff, 0xfe, 0]), Some(b"c\0"), None]);
    let items = drain(StringArray::from_raw(Some(ptr), true).into_iter());
    assert_eq!(items.len(), 3);
    assert_eq!(items[0].as_ref().unwrap(), "a");
    match &items[1] {
        Err(Error::Utf8(err)) => assert_eq!(err.valid_up_to(), 0),
        other => panic!("{:?}", other),
    }
    assert_eq!(items[2].as_ref().unwrap(), "c");
}

#[test]
fn string_iteration_ends_at_the_first_null_slot() {
    let ptr = raw(&[Some(b"a\0"), None, Some(b"b\0"), None]);
    let mut iter = StringArray::from_raw(Some(ptr), false).into_iter();
    assert_eq!(iter.next().unwrap().unwrap(), "a");
    assert!(iter.next().is_none());
    assert!(iter.next().is_none());
}

#[test]
fn iteration_over_slots_without_terminator_ends_with_the_slots() {
    let ptr = raw(&[Some(b"a\0"), Some(b"b\0")]);
    let items: Vec<String> = drain(StringArray::from_raw(Some(ptr), false).into_iter())
        .into_iter()
        .map(|x| x.unwrap())
        .collect();
    assert_eq!(items, vec!["a", "b"]);
}

#[test]
fn elements_are_read_up_to_their_terminator() {
    let ptr = raw(&[Some(b"ab\0cd\0"), Some(b"ef"), Some(b""), None]);
    let items: Vec<String> = drain(StringArray::from_raw(Some(ptr), false).into_iter())
        .into_iter()
        .map(|x| x.unwrap())
        .collect();
    assert_eq!(items, vec!["ab", "ef", ""]);
}

#[test]
fn errors_are_made_from_their_causes() {
    let cause = NulError { position: 3, bytes: b"abc\0".to_vec() };
    match Error::from(cause) {
        Error::NulByte(err) => {
            assert_eq!(err.position, 3);
            assert_eq!(err.bytes, b"abc\0".to_vec());
        }
        other => panic!("{:?}", other),
    }
    let cause = std::str::from_utf8(&[b'a', 0xff]).unwrap_err();
    match Error::from(cause) {
        Error::Utf8(err) => assert_eq!(err, cause),
        other => panic!("{:?}", other),
    }
    match Error::from(IntoStringError { bytes: vec![b'a', 0xff], cause }) {
        Error::IntoString(err) => {
            assert_eq!(err.bytes, vec![b'a', 0xff]);
            assert_eq!(err.cause, cause);
        }
        other => panic!("{:?}", other),
    }
}

#[test]
fn errors_tell_their_kind() {
    let cause = std::str::from_utf8(&[0xff]).unwrap_err();
    assert_eq!(format!("{:?}", Error::Null), "Null");
    assert!(!matches!(Error::Utf8(cause), Error::IntoString(_)));
    assert!(!matches!(Error::Null, Error::Utf8(_)));
}

#[test]
fn result_carries_the_error_of_the_crate() {
    let read: ffi_utils::Result<String> = read_c_str(b"ok\0");
    assert_eq!(read.unwrap(), "ok");
    let refused: ffi_utils::Result<Vec<u8>> = expose_string(vec![b'a', 0]);
    assert!(matches!(refused, Err(Error::NulByte(_))));
}
