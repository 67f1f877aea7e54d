use one_collect::event::{DataFieldRef, Event, EventField, LocationType};
use std::sync::atomic::{AtomicUsize, Ordering};
use std::sync::Arc;

fn create_abc() -> Event {
    let mut e = Event::new(1, "test".into());
    let format = e.format_mut();

    format.add_field(EventField::new(
        "1".into(),
        "unsigned char".into(),
        LocationType::Static,
        0,
        1,
    ));
    format.add_field(EventField::new(
        "2".into(),
        "unsigned char".into(),
        LocationType::Static,
        1,
        1,
    ));
    format.add_field(EventField::new(
        "3".into(),
        "unsigned char".into(),
        LocationType::Static,
        2,
        1,
    ));

    e
}

fn setup_abc(e: &mut Event, count: Arc<AtomicUsize>) {
    let format = e.format();

    let first = format.get_field_ref("1").unwrap();
    let second = format.get_field_ref("2").unwrap();
    let third = format.get_field_ref("3").unwrap();

    e.add_callback(move |data| {
        let format = data.format();
        let event_data = data.event_data();

        let a = format.get_data(first, event_data);
        let b = format.get_data(second, event_data);
        let c = format.get_data(third, event_data);

        assert!(a[0] == 1u8);
        assert!(b[0] == 2u8);
        assert!(c[0] == 3u8);

        count.fetch_add(1, Ordering::Relaxed);

        Ok(())
    });
}

#[test]
fn it_works() {
    let count = Arc::new(AtomicUsize::new(0));
    let mut e = create_abc();
    setup_abc(&mut e, Arc::clone(&count));

    let mut data: Vec<u8> = Vec::new();
    data.push(1u8);
    data.push(2u8);
    data.push(3u8);

    let mut errors: Vec<anyhow::Error> = Vec::new();

    let slice = data.as_slice();

    assert_eq!(count.load(Ordering::Relaxed), 0);
    e.process(slice, slice, &mut errors);
    assert_eq!(count.load(Ordering::Relaxed), 1);
    assert!(errors.is_empty());
    e.process(slice, slice, &mut errors);
    assert_eq!(count.load(Ordering::Relaxed), 2);
    assert!(errors.is_empty());
}

#[test]
fn flags() {
    let mut e = Event::new(0, "Flags".to_owned());

    /* No Callstacks */
    assert!(!e.has_no_callstack_flag());
    e.set_no_callstack_flag();
    assert!(e.has_no_callstack_flag());
}

#[test]
fn error_reporting() {
    let mut e = create_abc();
    e.add_callback(|_| Err(std::io::Error::new(std::io::ErrorKind::Other, "Oops").into()));

    let mut data: Vec<u8> = Vec::new();
    data.push(1u8);
    data.push(2u8);
    data.push(3u8);

    let mut errors: Vec<anyhow::Error> = Vec::new();

    let slice = data.as_slice();
    e.process(slice, slice, &mut errors);
    assert_eq!(1, errors.len());
    e.process(slice, slice, &mut errors);
    assert_eq!(2, errors.len());
    e.process(slice, slice, &mut errors);
    assert_eq!(3, errors.len());
}

#[test]
fn data_refs() {
    let field = DataFieldRef::new();
    let field2 = field.clone();
    let field3 = field2.clone();

    field.update(0, 1);

    let test = field.get();
    assert_eq!(0, test.start());
    assert_eq!(1, test.end());

    let test = field2.get();
    assert_eq!(0, test.start());
    assert_eq!(1, test.end());

    let test = field3.get();
    assert_eq!(0, test.start());
    assert_eq!(1, test.end());
}

#[test]
fn field_filter_closure_value_types() {
    let mut e = Event::new(1, "test".into());
    let format = e.format_mut();

    format.add_field(EventField::new(
        "u16".into(),
        "u16".into(),
        LocationType::Static,
        0,
        2,
    ));

    format.add_field(EventField::new(
        "wchar".into(),
        "wchar".into(),
        LocationType::Static,
        0,
        4,
    ));

    /* Strings */
    assert!(format.try_get_field_filter_closure("wchar", ">", "A").is_none());
    assert!(format.try_get_field_filter_closure("wchar", "<", "A").is_none());
    assert!(format.try_get_field_filter_closure("wchar", "<=", "A").is_none());
    assert!(format.try_get_field_filter_closure("wchar", ">=", "A").is_none());

    /* Numerics */
    assert!(format.try_get_field_filter_closure("u16", ">", "A").is_none());
    assert!(format.try_get_field_filter_closure("u16", "<", "A").is_none());
    assert!(format.try_get_field_filter_closure("u16", ">=", "A").is_none());
    assert!(format.try_get_field_filter_closure("u16", "<=", "A").is_none());
    assert!(format.try_get_field_filter_closure("u16", "==", "A").is_none());
}

fn check_numeric(format: &one_collect::event::EventFormat, data: &[u8], name: &str, v: i128) {
    let value = &v.to_string();
    let minus_one = &(v - 1).to_string();
    let plus_one = &(v + 1).to_string();

    /* Correct cases */
    assert!(format.try_get_field_filter_closure(name, "==", value).unwrap().matches(data));
    assert!(format.try_get_field_filter_closure(name, ">=", value).unwrap().matches(data));
    assert!(format.try_get_field_filter_closure(name, "<=", value).unwrap().matches(data));
    assert!(format.try_get_field_filter_closure(name, "<", plus_one).unwrap().matches(data));
    assert!(format.try_get_field_filter_closure(name, ">", minus_one).unwrap().matches(data));
    assert!(format.try_get_field_filter_closure(name, "!=", minus_one).unwrap().matches(data));

    /* Incorrect cases */
    assert!(!format.try_get_field_filter_closure(name, "==", plus_one).unwrap().matches(data));
    assert!(!format.try_get_field_filter_closure(name, ">=", plus_one).unwrap().matches(data));
    assert!(!format.try_get_field_filter_closure(name, "<=", minus_one).unwrap().matches(data));
    assert!(!format.try_get_field_filter_closure(name, "<", value).unwrap().matches(data));
    assert!(!format.try_get_field_filter_closure(name, ">", value).unwrap().matches(data));
    assert!(!format.try_get_field_filter_closure(name, "!=", value).unwrap().matches(data));
}

#[test]
fn field_filter_closure_numeric() {
    let mut e = Event::new(1, "test".into());
    let format = e.format_mut();
    let mut data = Vec::new();

    format.add_field(EventField::new("u8".into(), "u8".into(), LocationType::Static, data.len(), 1));
    data.push(1u8);

    format.add_field(EventField::new("s8".into(), "s8".into(), LocationType::Static, data.len(), 1));
    data.push(-2i8 as u8);

    format.add_field(EventField::new("u16".into(), "u16".into(), LocationType::Static, data.len(), 2));
    data.extend_from_slice(&3u16.to_ne_bytes());

    format.add_field(EventField::new(
        "unsigned short".into(),
        "unsigned short".into(),
        LocationType::Static,
        data.len(),
        2,
    ));
    data.extend_from_slice(&3u16.to_ne_bytes());

    format.add_field(EventField::new("s16".into(), "s16".into(), LocationType::Static, data.len(), 2));
    data.extend_from_slice(&(-4i16).to_ne_bytes());

    format.add_field(EventField::new("short".into(), "short".into(), LocationType::Static, data.len(), 2));
    data.extend_from_slice(&(-4i16).to_ne_bytes());

    format.add_field(EventField::new("u32".into(), "u32".into(), LocationType::Static, data.len(), 4));
    data.extend_from_slice(&5u32.to_ne_bytes());

    format.add_field(EventField::new(
        "unsigned int".into(),
        "unsigned int".into(),
        LocationType::Static,
        data.len(),
        4,
    ));
    data.extend_from_slice(&5u32.to_ne_bytes());

    format.add_field(EventField::new("s32".into(), "s32".into(), LocationType::Static, data.len(), 4));
    data.extend_from_slice(&(-6i32).to_ne_bytes());

    format.add_field(EventField::new("int".into(), "int".into(), LocationType::Static, data.len(), 4));
    data.extend_from_slice(&(-6i32).to_ne_bytes());

    format.add_field(EventField::new("u64".into(), "u64".into(), LocationType::Static, data.len(), 8));
    data.extend_from_slice(&7u64.to_ne_bytes());

    format.add_field(EventField::new(
        "unsigned long".into(),
        "unsigned long".into(),
        LocationType::Static,
        data.len(),
        8,
    ));
    data.extend_from_slice(&7u64.to_ne_bytes());

    format.add_field(EventField::new("s64".into(), "s64".into(), LocationType::Static, data.len(), 8));
    data.extend_from_slice(&(-8i64).to_ne_bytes());

    format.add_field(EventField::new("long".into(), "long".into(), LocationType::Static, data.len(), 8));
    data.extend_from_slice(&(-8i64).to_ne_bytes());

    /* 1-byte */
    check_numeric(format, &data, "u8", 1);
    check_numeric(format, &data, "s8", -2);

    /* 2-bytes */
    check_numeric(format, &data, "u16", 3);
    check_numeric(format, &data, "unsigned short", 3);
    check_numeric(format, &data, "s16", -4);
    check_numeric(format, &data, "short", -4);

    /* 4-bytes */
    check_numeric(format, &data, "u32", 5);
    check_numeric(format, &data, "unsigned int", 5);
    check_numeric(format, &data, "s32", -6);
    check_numeric(format, &data, "int", -6);

    /* 8-bytes */
    check_numeric(format, &data, "u64", 7);
    check_numeric(format, &data, "unsigned long", 7);
    check_numeric(format, &data, "s64", -8);
    check_numeric(format, &data, "long", -8);
}

fn check_strings(format: &one_collect::event::EventFormat, data: &[u8]) {
    /* Contains */
    assert!(format.try_get_field_filter_closure("alphabet", "contains", "MNOP").unwrap().matches(data));
    assert!(!format.try_get_field_filter_closure("alphabet", "contains", "TEST").unwrap().matches(data));
    assert!(format
        .try_get_field_filter_closure("alphabet", "contains", "ABCDEFGHIJKLMNOPQRSTUVWXYZ")
        .unwrap()
        .matches(data));
    assert!(format.try_get_field_filter_closure("alphabet", "not_contains", "a").unwrap().matches(data));

    /* == */
    assert!(format
        .try_get_field_filter_closure("alphabet", "==", "ABCDEFGHIJKLMNOPQRSTUVWXYZ")
        .unwrap()
        .matches(data));
    assert!(format
        .try_get_field_filter_closure("alphabet", "!=", "ABCDEFGHIJKLMNOPQRSTUVWXY")
        .unwrap()
        .matches(data));
    assert!(!format
        .try_get_field_filter_closure("alphabet", "==", "ABCDEFGHIJKLMNOPQRSTUVWXY")
        .unwrap()
        .matches(data));

    /* starts_with */
    assert!(format.try_get_field_filter_closure("alphabet", "starts_with", "ABC").unwrap().matches(data));
    assert!(!format.try_get_field_filter_closure("alphabet", "starts_with", "BCD").unwrap().matches(data));

    /* ends_with */
    assert!(format.try_get_field_filter_closure("alphabet", "ends_with", "XYZ").unwrap().matches(data));
    assert!(!format.try_get_field_filter_closure("alphabet", "ends_with", "WXY").unwrap().matches(data));

    /* Invalid operations */
    assert!(format.try_get_field_filter_closure("alphabet", ">", "0").is_none());
    assert!(format.try_get_field_filter_closure("alphabet", ">=", "0").is_none());
    assert!(format.try_get_field_filter_closure("alphabet", "<", "0").is_none());
    assert!(format.try_get_field_filter_closure("alphabet", "<=", "0").is_none());
}

#[test]
fn field_filter_closure_utf16_string() {
    let mut e = Event::new(1, "test".into());
    let format = e.format_mut();
    let mut data = Vec::new();

    format.add_field(EventField::new(
        "alphabet".into(),
        "wchar".into(),
        LocationType::Static,
        0,
        54,
    ));

    data.extend_from_slice(
        b"A\0B\0C\0D\0E\0F\0G\0H\0I\0J\0K\0L\0M\0N\0O\0P\0Q\0R\0S\0T\0U\0V\0W\0X\0Y\0Z\0\0\0",
    );

    check_strings(format, &data);
}

#[test]
fn field_filter_closure_utf8_string() {
    let mut e = Event::new(1, "test".into());
    let format = e.format_mut();
    let mut data = Vec::new();

    format.add_field(EventField::new(
        "alphabet".into(),
        "char".into(),
        LocationType::Static,
        0,
        27,
    ));

    data.extend_from_slice(b"ABCDEFGHIJKLMNOPQRSTUVWXYZ\0");

    check_strings(format, &data);
}

#[test]
fn field_write_closure() {
    /* Static */
    let mut e = Event::new(1, "test".into());
    let format = e.format_mut();
    let mut offset = 0;
    let mut data = Vec::new();

    format.add_field(EventField::new(
        "unsigned char".into(),
        "unsigned char".into(),
        LocationType::Static,
        offset,
        1,
    ));
    offset += 1;
    data.push('a' as u8);

    format.add_field(EventField::new("char".into(), "char".into(), LocationType::Static, offset, 1));
    offset += 1;
    data.push('b' as u8);

    format.add_field(EventField::new("u32".into(), "u32".into(), LocationType::Static, offset, 4));
    offset += 4;
    data.extend_from_slice(&1u32.to_ne_bytes());

    format.add_field(EventField::new("s32".into(), "s32".into(), LocationType::Static, offset, 4));
    offset += 4;
    data.extend_from_slice(&(-2i32).to_ne_bytes());

    format.add_field(EventField::new("u64".into(), "u64".into(), LocationType::Static, offset, 8));
    offset += 8;
    data.extend_from_slice(&3u64.to_ne_bytes());

    format.add_field(EventField::new("s64".into(), "s64".into(), LocationType::Static, offset, 8));
    offset += 8;
    data.extend_from_slice(&(-4i64).to_ne_bytes());

    format.add_field(EventField::new("string".into(), "char".into(), LocationType::Static, offset, 8));
    data.extend_from_slice("TestTest".as_bytes());

    let closure = e.try_get_field_write_closure("unsigned char").unwrap();
    let mut string = String::new();
    closure.write(&mut string, &data);
    assert_eq!("a ", string);

    let closure = e.try_get_field_write_closure("char").unwrap();
    let mut string = String::new();
    closure.write(&mut string, &data);
    assert_eq!("b ", string);

    let closure = e.try_get_field_write_closure("u32").unwrap();
    let mut string = String::new();
    closure.write(&mut string, &data);
    assert_eq!("1 ", string);

    let closure = e.try_get_field_write_closure("s32").unwrap();
    let mut string = String::new();
    closure.write(&mut string, &data);
    assert_eq!("-2 ", string);

    let closure = e.try_get_field_write_closure("u64").unwrap();
    let mut string = String::new();
    closure.write(&mut string, &data);
    assert_eq!("3 ", string);

    let closure = e.try_get_field_write_closure("s64").unwrap();
    let mut string = String::new();
    closure.write(&mut string, &data);
    assert_eq!("-4 ", string);

    let closure = e.try_get_field_write_closure("string").unwrap();
    let mut string = String::new();
    closure.write(&mut string, &data);
    assert_eq!("TestTest ", string);
}

#[test]
fn field_data_closure() {
    /* Static */
    let mut e = Event::new(1, "test".into());
    let format = e.format_mut();

    format.add_field(EventField::new(
        "1".into(),
        "unsigned char".into(),
        LocationType::Static,
        0,
        1,
    ));
    format.add_field(EventField::new("2".into(), "u32".into(), LocationType::Static, 1, 4));
    format.add_field(EventField::new("3".into(), "u64".into(), LocationType::Static, 5, 8));

    let mut data = Vec::new();

    data.push(b'1');
    data.extend_from_slice(&2u32.to_ne_bytes());
    data.extend_from_slice(&3u64.to_ne_bytes());

    let first = e.try_get_field_data_closure("1");
    assert!(first.is_some());
    assert_eq!(&data[0..1], first.unwrap().get(&data));

    let second = e.try_get_field_data_closure("2");
    assert!(second.is_some());
    assert_eq!(&data[1..5], second.unwrap().get(&data));

    let third = e.try_get_field_data_closure("3");
    assert!(third.is_some());
    assert_eq!(&data[5..13], third.unwrap().get(&data));

    /* Dynamic */
    let mut e = Event::new(1, "test".into());
    let format = e.format_mut();

    format.add_field(EventField::new(
        "1".into(),
        "string".into(),
        LocationType::StaticString,
        0,
        0,
    ));
    format.add_field(EventField::new(
        "2".into(),
        "wide_string".into(),
        LocationType::StaticUTF16String,
        0,
        0,
    ));
    format.add_field(EventField::new("3".into(), "u64".into(), LocationType::Static, 0, 8));

    let mut data = Vec::new();

    data.extend_from_slice(b"test\0");
    data.extend_from_slice(b"t\0e\0s\0t\0\0\0");
    data.extend_from_slice(&123456789u64.to_ne_bytes());

    let first = e.try_get_field_data_closure("1");
    assert!(first.is_some());
    assert_eq!(&data[0..4], first.unwrap().get(&data));

    let second = e.try_get_field_data_closure("2");
    assert!(second.is_some());
    assert_eq!(&data[5..13], second.unwrap().get(&data));

    let third = e.try_get_field_data_closure("3");
    assert!(third.is_some());
    assert_eq!(&data[15..23], third.unwrap().get(&data));

    /* Mixed Middle */
    let mut e = Event::new(1, "test".into());
    let format = e.format_mut();

    format.add_field(EventField::new(
        "1".into(),
        "string".into(),
        LocationType::StaticString,
        0,
        0,
    ));
    format.add_field(EventField::new("2".into(), "u64".into(), LocationType::Static, 0, 8));
    format.add_field(EventField::new(
        "3".into(),
        "wide_string".into(),
        LocationType::StaticUTF16String,
        0,
        0,
    ));

    let mut data = Vec::new();

    data.extend_from_slice(b"test\0");
    data.extend_from_slice(&123456789u64.to_ne_bytes());
    data.extend_from_slice(b"t\0e\0s\0t\0\0\0");

    let first = e.try_get_field_data_closure("1");
    assert!(first.is_some());
    assert_eq!(&data[0..4], first.unwrap().get(&data));

    let second = e.try_get_field_data_closure("2");
    assert!(second.is_some());
    assert_eq!(&data[5..13], second.unwrap().get(&data));

    let third = e.try_get_field_data_closure("3");
    assert!(third.is_some());
    assert_eq!(&data[13..21], third.unwrap().get(&data));

    /* Mixed Start */
    let mut e = Event::new(1, "test".into());
    let format = e.format_mut();

    format.add_field(EventField::new("1".into(), "u64".into(), LocationType::Static, 0, 8));
    format.add_field(EventField::new(
        "2".into(),
        "string".into(),
        LocationType::StaticString,
        8,
        0,
    ));
    format.add_field(EventField::new(
        "3".into(),
        "wide_string".into(),
        LocationType::StaticUTF16String,
        8,
        0,
    ));

    let mut data = Vec::new();

    data.extend_from_slice(&123456789u64.to_ne_bytes());
    data.extend_from_slice(b"test\0");
    data.extend_from_slice(b"t\0e\0s\0t\0\0\0");

    let first = e.try_get_field_data_closure("1");
    assert!(first.is_some());
    assert_eq!(&data[0..8], first.unwrap().get(&data));

    let second = e.try_get_field_data_closure("2");
    assert!(second.is_some());
    assert_eq!(&data[8..12], second.unwrap().get(&data));

    let third = e.try_get_field_data_closure("3");
    assert!(third.is_some());
    assert_eq!(&data[13..21], third.unwrap().get(&data));
}

#[test]
fn get_rel_loc() {
    let mut e = Event::new(1, "test".into());
    let format = e.format_mut();

    format.add_field(EventField::new(
        "data".into(),
        "__rel_loc u8[]".into(),
        LocationType::DynRelative,
        0,
        4,
    ));

    let rel_data = format.get_field_ref_unchecked("data");

    /* 0 offset case */
    let mut data = Vec::new();

    let rel_loc = 4u32 << 16 | 0u32;
    let actual = 123456789u32;

    data.extend_from_slice(&rel_loc.to_ne_bytes());
    data.extend_from_slice(&actual.to_ne_bytes());

    let range = format.get_rel_loc(rel_data, &data).unwrap();
    assert_eq!(data[4..8], data[range]);

    /* Non-0 offset case */
    let mut data = Vec::new();

    let rel_loc = 4u32 << 16 | 4u32;
    let pad = 987654321u32;
    let actual = 123456789u32;

    data.extend_from_slice(&rel_loc.to_ne_bytes());
    data.extend_from_slice(&pad.to_ne_bytes());
    data.extend_from_slice(&actual.to_ne_bytes());

    let range = format.get_rel_loc(rel_data, &data).unwrap();
    assert_eq!(data[8..12], data[range]);
}
