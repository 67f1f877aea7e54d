use one_collect::etw::abi::{
    enable_outcome, wide_string, ClassicEventId, EnableTraceError, TraceEnable, TraceStats, EVENT_ENABLE_PROPERTY_STACK_TRACE,
    EVENT_FILTER_TYPE_EVENT_ID, EVENT_FILTER_TYPE_PID, EVENT_FILTER_TYPE_STACKWALK,
    EVENT_FILTER_TYPE_STACKWALK_LEVEL_KW,
};
use one_collect::etw::tdh::{
    cache_key_from_record, map_tdh_intype, parse_trace_event_info, pointer_size_from_record,
    read_wide_string_at, schema_fill_outcome, CacheKey, CachedSchema, DecodeAction, SchemaCache, schema_probe_outcome, schema_walk_terminates,
    RecordHeader, TdhDecodeError, ERROR_INSUFFICIENT_BUFFER, ERROR_NOT_FOUND, ERROR_SUCCESS,
};
use one_collect::event::{
    DataFieldRef, Event, EventError, EventField, EventFormat, LocationType, WriteKind,
};
use one_collect::etw::tdh::{
    EVENT_HEADER_FLAG_32_BIT_HEADER, PROPERTY_INFO_SIZE, PROPERTY_PARAM_COUNT,
    PROPERTY_PARAM_FIXED_COUNT, PROPERTY_PARAM_LENGTH, PROPERTY_STRUCT, TDH_INTYPE_ANSICHAR,
    TDH_INTYPE_ANSISTRING, TDH_INTYPE_BOOLEAN, TDH_INTYPE_COUNTEDANSISTRING,
    TDH_INTYPE_COUNTEDSTRING, TDH_INTYPE_DOUBLE, TDH_INTYPE_FILETIME, TDH_INTYPE_FLOAT,
    TDH_INTYPE_GUID, TDH_INTYPE_HEXINT32, TDH_INTYPE_HEXINT64, TDH_INTYPE_INT16, TDH_INTYPE_INT32,
    TDH_INTYPE_INT64, TDH_INTYPE_INT8, TDH_INTYPE_MANIFEST_COUNTEDANSISTRING,
    TDH_INTYPE_MANIFEST_COUNTEDBINARY, TDH_INTYPE_MANIFEST_COUNTEDSTRING, TDH_INTYPE_POINTER,
    TDH_INTYPE_SIZET, TDH_INTYPE_SYSTEMTIME, TDH_INTYPE_UINT16, TDH_INTYPE_UINT32,
    TDH_INTYPE_UINT64, TDH_INTYPE_UINT8, TDH_INTYPE_UNICODECHAR, TDH_INTYPE_UNICODESTRING,
    TRACE_EVENT_INFO_SIZE,
};
use one_collect::Guid;
use windows_sys::Win32::System::Diagnostics::Etw as e;

fn field(name: &str, t: &str, loc: LocationType, offset: usize, size: usize) -> EventField {
    EventField::new(name.into(), t.into(), loc, offset, size)
}

#[test]
fn guid_from_u128_splits_parts() {
    let v: u128 = 0x0011_2233_4455_6677_8899_aabb_ccdd_eeff;
    let g = Guid::from_u128(v);
    assert_eq!(g.data1, 0x0011_2233);
    assert_eq!(g.data2, 0x4455);
    assert_eq!(g.data3, 0x6677);
    assert_eq!(g.data4, [0x88, 0x99, 0xaa, 0xbb, 0xcc, 0xdd, 0xee, 0xff]);

    let w = windows_sys::core::GUID::from_u128(v);
    assert_eq!(g.data1, w.data1);
    assert_eq!(g.data2, w.data2);
    assert_eq!(g.data3, w.data3);
    assert_eq!(g.data4, w.data4);
}

#[test]
fn event_flags_and_proxy() {
    let mut e = Event::new(7, "name".into());
    assert_eq!(e.id(), 7);
    assert_eq!(e.name(), "name");
    assert!(!e.has_no_callstack_flag());
    assert!(!e.has_no_cpu_mask_flag());
    assert_eq!(e.get_proxy_id(), None);

    e.set_no_cpu_mask_flag();
    assert!(e.has_no_cpu_mask_flag());
    assert!(!e.has_no_callstack_flag());
    assert_eq!(e.get_proxy_id(), None);

    e.set_proxy_id(42);
    assert_eq!(e.get_proxy_id(), Some(42));
    assert!(e.has_no_cpu_mask_flag());
    assert!(!e.has_no_callstack_flag());

    e.set_no_callstack_flag();
    assert!(e.has_no_callstack_flag());
    assert_eq!(e.get_proxy_id(), Some(42));
}

#[test]
fn event_extension_defaults_and_changes() {
    let mut e = Event::new(1, "x".into());
    assert_eq!(e.extension().level, 0);
    assert_eq!(e.extension().keyword, 0);
    assert_eq!(e.extension().provider, Guid::from_u128(0));
    e.extension_mut().level = 5;
    e.extension_mut().keyword = 0x10;
    assert_eq!(e.extension().level, 5);
    assert_eq!(e.extension().keyword, 0x10);
}

#[test]
fn process_collects_one_error_per_failing_callback() {
    let mut e = Event::new(1, "x".into());
    e.add_callback(|_| Ok(()));
    e.add_callback(|_| Err(anyhow::Error::msg("first")));
    e.add_callback(|data| {
        assert_eq!(data.full_data(), &[9u8, 8, 7]);
        assert_eq!(data.event_data(), &[8u8, 7]);
        Err(anyhow::Error::msg("second"))
    });
    let mut errors: Vec<anyhow::Error> = vec![anyhow::Error::msg("earlier")];
    let full = [9u8, 8, 7];
    e.process(&full, &full[1..], &mut errors);
    assert_eq!(errors.len(), 3);
    assert_eq!(errors[0].to_string(), "earlier");
    assert_eq!(errors[1].to_string(), "first");
    assert_eq!(errors[2].to_string(), "second");
}

#[test]
fn process_runs_callbacks_once_each_in_order() {
    let seen = std::rc::Rc::new(std::cell::RefCell::new(Vec::<(u32, usize)>::new()));
    let mut e = Event::new(1, "x".into());
    e.format_mut().add_field(field("a", "u8", LocationType::Static, 0, 1));
    for k in 0..3u32 {
        let seen = seen.clone();
        e.add_callback(move |data| {
            seen.borrow_mut().push((k, data.format().fields().len()));
            Ok(())
        });
    }
    let mut errors: Vec<anyhow::Error> = Vec::new();
    e.process(&[1u8], &[1u8], &mut errors);
    assert!(errors.is_empty());
    assert_eq!(*seen.borrow(), vec![(0, 1), (1, 1), (2, 1)]);
    e.process(&[1u8], &[1u8], &mut errors);
    assert_eq!(seen.borrow().len(), 6);
    assert_eq!(seen.borrow()[3].0, 0);
}

#[test]
fn add_field_keeps_first_lookup() {
    let mut f = EventFormat::new();
    f.add_field(field("a", "u8", LocationType::Static, 0, 1));
    f.add_field(field("b", "u8", LocationType::Static, 1, 1));
    f.add_field(field("a", "u16", LocationType::Static, 2, 2));
    assert_eq!(f.fields().len(), 3);
    let r = f.get_field_ref("a").unwrap();
    assert_eq!(usize::from(r), 0);
    assert_eq!(f.get_field("a").unwrap().field_type, "u8");
    assert_eq!(usize::from(f.get_field_ref_unchecked("b")), 1);
    assert!(f.get_field("c").is_none());
    assert!(f.get_field_ref("c").is_none());
}

#[test]
fn format_integer_reads() {
    let mut f = EventFormat::new();
    f.add_field(field("v", "u64", LocationType::Static, 0, 8));
    f.add_field(field("short", "u8", LocationType::Static, 8, 1));
    f.add_field(field("gone", "u8", LocationType::Static, 100, 1));
    let mut data = Vec::new();
    data.extend_from_slice(&0x0102_0304_0506_0708u64.to_ne_bytes());
    data.push(0xAB);

    let v = f.get_field_ref("v").unwrap();
    let short = f.get_field_ref("short").unwrap();
    let gone = f.get_field_ref("gone").unwrap();

    assert_eq!(f.get_u64(v, &data).unwrap(), 0x0102_0304_0506_0708);
    assert_eq!(f.try_get_u64(v, &data), Some(0x0102_0304_0506_0708));
    assert_eq!(f.get_u32(v, &data).unwrap(), u32::from_ne_bytes(data[0..4].try_into().unwrap()));
    assert_eq!(f.try_get_u16(v, &data), Some(u16::from_ne_bytes([data[0], data[1]])));
    assert_eq!(f.get_u8(short, &data).unwrap(), 0xAB);
    assert_eq!(f.try_get_u8(short, &data), Some(0xAB));
    assert_eq!(f.get_u16(short, &data), Err(EventError::NotEnoughData));
    assert_eq!(f.try_get_u32(short, &data), None);
    assert_eq!(f.get_u8(gone, &data), Err(EventError::NotEnoughData));
    assert!(f.get_data(gone, &data).is_empty());
    assert_eq!(f.get_data_with_offset(short, &data, 0), &[0xAB]);
    assert!(f.get_data_with_offset(short, &data, 1).is_empty());
}

#[test]
fn format_strings() {
    let mut f = EventFormat::new();
    f.add_field(field("s", "string", LocationType::StaticString, 0, 0));
    let s = f.get_field_ref("s").unwrap();

    assert_eq!(f.get_str(s, b"hello\0rest").unwrap(), "hello");
    assert_eq!(f.try_get_str(s, b"\0").unwrap(), "");
    assert_eq!(f.get_str(s, &[0xff, 0xfe, 0]), Err(EventError::InvalidUtf8));
    assert_eq!(f.try_get_str(s, &[0xff, 0]), None);
}

#[test]
fn rel_loc_errors() {
    let mut f = EventFormat::new();
    f.add_field(field("rel", "__rel_loc u8[]", LocationType::DynRelative, 0, 4));
    f.add_field(field("wide", "u64", LocationType::Static, 0, 8));
    let rel = f.get_field_ref("rel").unwrap();
    let wide = f.get_field_ref("wide").unwrap();

    assert_eq!(f.get_rel_loc(wide, &[0u8; 8]), Err(EventError::FieldSizeMustBe4));
    assert_eq!(f.get_rel_loc(rel, &[0u8; 3]), Err(EventError::NotEnoughData));
    let too_long = (8u32 << 16).to_ne_bytes();
    assert_eq!(f.get_rel_loc(rel, &too_long), Err(EventError::NotEnoughData));

    let mut other = EventFormat::new();
    other.add_field(field("a", "u8", LocationType::Static, 0, 1));
    other.add_field(field("b", "u8", LocationType::Static, 0, 1));
    other.add_field(field("c", "u8", LocationType::Static, 0, 1));
    let past = other.get_field_ref("c").unwrap();
    assert_eq!(f.get_rel_loc(past, &[0u8; 8]), Err(EventError::InvalidFieldRef));
}

#[test]
fn element_sizes() {
    assert_eq!(EventFormat::try_get_element_size("u8"), Some(1));
    assert_eq!(EventFormat::try_get_element_size("unsigned char"), Some(1));
    assert_eq!(EventFormat::try_get_element_size("__dyn_array unsigned short"), Some(2));
    assert_eq!(EventFormat::try_get_element_size("  int  "), Some(4));
    assert_eq!(EventFormat::try_get_element_size("long"), Some(8));
    assert_eq!(EventFormat::try_get_element_size("unsigned"), None);
    assert_eq!(EventFormat::try_get_element_size("__dyn_array"), None);
    assert_eq!(EventFormat::try_get_element_size("float"), None);
    assert_eq!(EventFormat::try_get_element_size(""), None);
}

#[test]
fn length_prefixed_fields() {
    let mut f = EventFormat::new();
    f.add_field(field("arr", "u16", LocationType::StaticLenPrefixArray, 0, 0));
    f.add_field(field("after", "u8", LocationType::Static, 0, 1));
    let mut data = Vec::new();
    data.extend_from_slice(&2u16.to_ne_bytes());
    data.extend_from_slice(&[1, 0, 2, 0]);
    data.push(9);

    let arr = f.try_get_field_data_closure("arr").unwrap();
    assert_eq!(arr.get(&data), &data[2..6]);
    let after = f.try_get_field_data_closure("after").unwrap();
    assert_eq!(after.get(&data), &[9]);

    /* An array whose element type is unknown cannot be stepped over. */
    let mut g = EventFormat::new();
    g.add_field(field("arr", "blob", LocationType::StaticLenPrefixArray, 0, 0));
    g.add_field(field("after", "u8", LocationType::Static, 0, 1));
    assert!(g.try_get_field_data_closure("arr").is_none());
    assert!(g.try_get_field_data_closure("after").is_none());

    /* A relative field before stops the walk. */
    let mut h = EventFormat::new();
    h.add_field(field("rel", "u8", LocationType::DynRelative, 0, 0));
    h.add_field(field("after", "u8", LocationType::Static, 0, 1));
    assert!(h.try_get_field_data_closure("after").is_none());
}

#[test]
fn data_field_ref_reads() {
    let r = DataFieldRef::default();
    let data = [1u8, 2, 3, 4, 5, 6, 7, 8, 9];
    assert!(r.get_data(&data).is_empty());
    assert_eq!(r.try_get_u8(&data), None);
    assert_eq!(r.get_u8(&data), Err(EventError::NotEnoughData));

    assert_eq!(r.update(1, 8), 8);
    assert_eq!(r.get_data(&data), &data[1..9]);
    assert_eq!(r.get_u64(&data).unwrap(), u64::from_ne_bytes(data[1..9].try_into().unwrap()));
    assert_eq!(r.try_get_u32(&data), Some(u32::from_ne_bytes(data[1..5].try_into().unwrap())));
    assert_eq!(r.get_u16(&data).unwrap(), u16::from_ne_bytes([2, 3]));
    assert_eq!(r.get_u8(&data).unwrap(), 2);

    /* Data shorter than the range gives nothing. */
    assert!(r.get_data(&data[0..5]).is_empty());
    assert_eq!(r.try_get_u64(&data[0..5]), None);

    let shared = r.clone();
    r.update(0, 2);
    assert_eq!(shared.get_data(&data), &[1, 2]);
    assert_eq!(shared.get_u32(&data), Err(EventError::NotEnoughData));
    assert_eq!(shared.try_get_u16(&data), Some(u16::from_ne_bytes([1, 2])));

    shared.reset();
    assert_eq!(r.get().start(), 0);
    assert_eq!(r.get().end(), 0);

    /* Positions are kept as 32 bits; a cut range that ends first reads as empty. */
    let start = u32::MAX as usize;
    assert_eq!(r.update(start, 2), 2);
    assert_eq!(r.get().start(), u32::MAX as usize);
    assert_eq!(r.get().end(), ((start + 2) as u32) as usize);
    assert!(r.get_data(&data).is_empty());
    assert_eq!(r.try_get_u8(&data), None);
}

#[test]
fn filter_parsing_edges() {
    let mut f = EventFormat::new();
    f.add_field(field("u8", "u8", LocationType::Static, 0, 1));
    f.add_field(field("s8", "s8", LocationType::Static, 1, 1));
    f.add_field(field("blob", "object", LocationType::Static, 2, 1));
    let data = [200u8, 0x80, 0];

    assert!(f.try_get_field_filter_closure("u8", "==", "+200").unwrap().matches(&data));
    assert!(f.try_get_field_filter_closure("u8", "==", "256").is_none());
    assert!(f.try_get_field_filter_closure("u8", "==", "-1").is_none());
    assert!(f.try_get_field_filter_closure("u8", "==", "").is_none());
    assert!(f.try_get_field_filter_closure("u8", "==", "+").is_none());
    assert!(f.try_get_field_filter_closure("u8", "contains", "a").is_none());
    assert!(f.try_get_field_filter_closure("s8", "==", "-128").unwrap().matches(&data));
    assert!(f.try_get_field_filter_closure("s8", "<", "0").unwrap().matches(&data));
    assert!(f.try_get_field_filter_closure("s8", "==", "128").is_none());
    assert!(f.try_get_field_filter_closure("blob", "==", "0").is_none());
    assert!(f.try_get_field_filter_closure("missing", "==", "0").is_none());
    assert!(f.try_get_field_filter_closure("u8", "=", "200").unwrap().matches(&data));
    assert!(!f.try_get_field_filter_closure("u8", "=", "1").unwrap().matches(&data));
    assert!(f.try_get_field_filter_closure("u8", "=", "x").is_none());

    /* Complementary operations never agree. */
    for (a, b) in [("==", "!="), ("<", ">="), (">", "<=")] {
        for v in ["199", "200", "201"] {
            let x = f.try_get_field_filter_closure("u8", a, v).unwrap().matches(&data);
            let y = f.try_get_field_filter_closure("u8", b, v).unwrap().matches(&data);
            assert_ne!(x, y);
        }
    }
}

#[test]
fn event_filter_single_equals_sign() {
    let mut e = Event::new(1, "test".into());
    e.format_mut().add_field(field("u32", "u32", LocationType::Static, 0, 4));
    let c = e.try_get_field_filter_closure("u32", "=", "5").unwrap();
    assert!(c.matches(&5u32.to_ne_bytes()));
    assert!(!c.matches(&6u32.to_ne_bytes()));
}

#[test]
fn text_filters_on_dynamic_and_wide_fields() {
    let mut f = EventFormat::new();
    f.add_field(field("name", "string", LocationType::StaticString, 0, 0));
    f.add_field(field("wide", "wstring", LocationType::StaticUTF16String, 0, 0));
    let mut data = Vec::new();
    data.extend_from_slice(b"abc\0");
    for c in "h\u{e9}!".encode_utf16() {
        data.extend_from_slice(&c.to_ne_bytes());
    }
    data.extend_from_slice(&[0, 0]);

    assert!(f.try_get_field_filter_closure("name", "==", "abc").unwrap().matches(&data));
    assert!(f.try_get_field_filter_closure("name", "equals", "abc").unwrap().matches(&data));
    assert!(f.try_get_field_filter_closure("name", "=", "abc").unwrap().matches(&data));
    assert!(!f.try_get_field_filter_closure("name", "=", "ab").unwrap().matches(&data));
    assert!(f.try_get_field_filter_closure("name", "not_equals", "ab").unwrap().matches(&data));
    assert!(f.try_get_field_filter_closure("wide", "==", "h\u{e9}!").unwrap().matches(&data));
    assert!(f.try_get_field_filter_closure("wide", "ends_with", "\u{e9}!").unwrap().matches(&data));
    assert!(!f.try_get_field_filter_closure("wide", "contains", "x").unwrap().matches(&data));
}

#[test]
fn field_writers_render() {
    let mut f = EventFormat::new();
    f.add_field(field("pair", "unsigned short", LocationType::Static, 0, 4));
    f.add_field(field("neg", "short", LocationType::Static, 4, 2));
    f.add_field(field("raw", "object", LocationType::Static, 6, 2));
    f.add_field(field("w", "char", LocationType::StaticUTF16String, 8, 0));
    f.add_field(field("x", "float", LocationType::Static, 0, 4));
    let mut data = Vec::new();
    data.extend_from_slice(&7u16.to_ne_bytes());
    data.extend_from_slice(&65535u16.to_ne_bytes());
    data.extend_from_slice(&(-3i16).to_ne_bytes());
    data.extend_from_slice(&[0x0a, 0xff]);
    for c in [0x48u16, 0xD800, 0x49, 0] {
        data.extend_from_slice(&c.to_ne_bytes());
    }

    let mut s = String::new();
    f.try_get_field_write_closure("pair").unwrap().write(&mut s, &data);
    assert_eq!(s, "7 65535 ");

    let mut s = String::new();
    f.try_get_field_write_closure("neg").unwrap().write(&mut s, &data);
    assert_eq!(s, "-3 ");

    let mut s = String::new();
    f.try_get_field_write_closure("raw").unwrap().write(&mut s, &data);
    assert_eq!(s, "0x0A 0xFF ");

    let mut s = String::from(">");
    f.try_get_field_write_closure("w").unwrap().write(&mut s, &data);
    assert_eq!(s, ">H?I ");

    assert_eq!(f.try_get_field_write_closure("x").unwrap().kind, WriteKind::F32);
    assert!(f.try_get_field_write_closure("missing").is_none());

    let mut g = EventFormat::new();
    g.add_field(field("a", "u32", LocationType::Static, 0, 4));
    g.add_field(field("b", "u8", LocationType::Static, 4, 1));
    g.add_field(field("c", "unsigned char", LocationType::Static, 5, 1));
    let mut data = Vec::new();
    data.extend_from_slice(&12u32.to_ne_bytes());
    data.push(0x1F);
    data.push(b'z');
    let all = g.get_write_closure();
    assert_eq!(all.entries.len(), 3);
    let mut s = String::new();
    all.write(&mut s, &data);
    assert_eq!(s, "a=12 b=0x1F c=z ");
}

#[test]
fn wide_string_truncates_and_terminates() {
    assert_eq!(wide_string("ab"), vec![97u16, 98, 0]);
    assert_eq!(wide_string(""), vec![0u16]);
    assert_eq!(wide_string("\u{1F600}"), vec![0xF600u16, 0]);
}

#[test]
fn classic_event_id() {
    let g = Guid::from_u128(5);
    let id = ClassicEventId::new(g, 9);
    assert_eq!(id.event_guid, g);
    assert_eq!(id.event_type, 9);
    assert_eq!(id.reserved, [0u8; 7]);
}

#[test]
fn trace_enable_state() {
    let p = Guid::from_u128(0x1234);
    let mut t = TraceEnable::new(p);
    assert!(!t.needs_capture_environment());
    assert!(!t.needs_rundown());
    t.ensure_capture_environment();
    t.ensure_rundown();
    assert!(t.needs_capture_environment());
    assert!(t.needs_rundown());

    t.ensure_level(3);
    t.ensure_level(2);
    t.ensure_keyword(0x1);
    t.ensure_keyword(0x4);
    t.ensure_property(0x100);
    let plan = t.plan(&None);
    assert_eq!(plan.provider, p);
    assert_eq!(plan.level, 3);
    assert_eq!(plan.keyword, 0x5);
    assert_eq!(plan.enable_property, 0x100);
    assert!(plan.filters.is_empty());
    assert_eq!(t.provider(), p);
}

#[test]
fn event_filter_layout() {
    let bytes = TraceEnable::build_event_filter(&vec![5u16, 0x0102]);
    let mut expected = vec![1u8, 0];
    expected.extend_from_slice(&2u16.to_ne_bytes());
    expected.extend_from_slice(&5u16.to_ne_bytes());
    expected.extend_from_slice(&0x0102u16.to_ne_bytes());
    assert_eq!(bytes, expected);
    assert_eq!(TraceEnable::build_event_filter(&vec![]), vec![1u8, 0, 0, 0]);
}

#[test]
fn enable_plan_filters() {
    let mut t = TraceEnable::new(Guid::from_u128(1));
    t.ensure_custom_filter(77, vec![9, 9]);
    t.add_event(1, true);
    t.add_event(2, false);
    t.ensure_callstack_keyword(0x8000);
    let plan = t.plan(&Some(vec![10, -1]));

    let types: Vec<u32> = plan.filters.iter().map(|f| f.filter_type).collect();
    assert_eq!(
        types,
        vec![
            77,
            EVENT_FILTER_TYPE_EVENT_ID,
            EVENT_FILTER_TYPE_STACKWALK,
            EVENT_FILTER_TYPE_PID,
            EVENT_FILTER_TYPE_STACKWALK_LEVEL_KW
        ]
    );
    assert_eq!(plan.filters[0].data, vec![9, 9]);
    assert_eq!(plan.filters[1].data, TraceEnable::build_event_filter(&vec![1, 2]));
    assert_eq!(plan.filters[2].data, TraceEnable::build_event_filter(&vec![1]));
    let mut pids = Vec::new();
    pids.extend_from_slice(&10i32.to_ne_bytes());
    pids.extend_from_slice(&(-1i32).to_ne_bytes());
    assert_eq!(plan.filters[3].data, pids);
    let kw = &plan.filters[4].data;
    assert_eq!(kw.len(), 24);
    assert_eq!(&kw[0..8], &0x8000u64.to_ne_bytes());
    assert_eq!(&kw[8..16], &[0u8; 8]);
    assert_eq!(kw[16], 0);
    assert_eq!(kw[17], 1);
    assert_eq!(plan.enable_property, EVENT_ENABLE_PROPERTY_STACK_TRACE);

    /* Too many processes or events leave their filters out. */
    let mut many = TraceEnable::new(Guid::from_u128(1));
    for id in 0..65u16 {
        many.add_event(id, true);
    }
    let plan = many.plan(&Some(vec![1; 9]));
    assert!(plan.filters.is_empty());
    assert_eq!(plan.enable_property, EVENT_ENABLE_PROPERTY_STACK_TRACE);

    /* No filtering hands over nothing. */
    let mut off = TraceEnable::new(Guid::from_u128(1));
    off.add_event(1, true);
    off.ensure_property(8);
    off.ensure_no_filtering();
    let plan = off.plan(&Some(vec![1]));
    assert!(plan.filters.is_empty());
    assert_eq!(plan.enable_property, 0);
}

#[test]
fn trace_stats_from_counters() {
    let s = TraceStats::from_counters(1, 2, 3, u32::MAX);
    assert_eq!(
        s,
        TraceStats {
            events_lost: 1,
            real_time_buffers_lost: 2,
            log_buffers_lost: 3,
            buffers_written: u32::MAX as u64
        }
    );
    assert_eq!(TraceStats::default().events_lost, 0);
}

#[test]
fn tdh_error_messages() {
    assert_eq!(TdhDecodeError::NotFound.message(), "TDH schema not found for event");
    assert_eq!(
        TdhDecodeError::Win32(122).message(),
        "TdhGetEventInformation failed with Win32 status 122"
    );
    assert_eq!(
        TdhDecodeError::Malformed("short").message(),
        "TRACE_EVENT_INFO buffer was malformed: short"
    );
}

#[test]
fn record_header_keys() {
    let h = RecordHeader {
        provider: Guid::from_u128(3),
        id: 4,
        version: 5,
        opcode: 6,
        channel: 7,
        keyword: 8,
        flags: 32 | 1,
    };
    assert_eq!(pointer_size_from_record(&h), 4);
    let k = cache_key_from_record(&h);
    assert_eq!(k.pointer_size, 4);
    assert_eq!(k.id, 4);
    assert_eq!(k.keyword, 8);
    let h64 = RecordHeader { flags: 1, ..h };
    assert_eq!(pointer_size_from_record(&h64), 8);
    assert_ne!(cache_key_from_record(&h64), k);
}

#[test]
fn tdh_intype_mapping() {
    let m = map_tdh_intype(1, 8).unwrap();
    assert_eq!((m.field_type, m.size, m.location), ("wstring", 0, LocationType::StaticUTF16String));
    let m = map_tdh_intype(16, 4).unwrap();
    assert_eq!((m.field_type, m.size), ("u32", 4));
    let m = map_tdh_intype(308, 8).unwrap();
    assert_eq!((m.field_type, m.size), ("u64", 8));
    let m = map_tdh_intype(300, 8).unwrap();
    assert_eq!((m.field_type, m.size, m.location), ("u8", 0, LocationType::StaticLenPrefixArray));
    let m = map_tdh_intype(15, 8).unwrap();
    assert_eq!((m.field_type, m.size), ("u8", 16));
    assert!(map_tdh_intype(14, 8).is_none());
    assert!(map_tdh_intype(0, 8).is_none());
}

#[test]
fn tdh_layout_matches_windows_sys() {
    assert_eq!(std::mem::size_of::<e::TRACE_EVENT_INFO>(), TRACE_EVENT_INFO_SIZE);
    assert_eq!(std::mem::size_of::<e::EVENT_PROPERTY_INFO>(), PROPERTY_INFO_SIZE);
    assert_eq!(e::PropertyStruct as u32, PROPERTY_STRUCT);
    assert_eq!(e::PropertyParamLength as u32, PROPERTY_PARAM_LENGTH);
    assert_eq!(e::PropertyParamCount as u32, PROPERTY_PARAM_COUNT);
    assert_eq!(e::PropertyParamFixedCount as u32, PROPERTY_PARAM_FIXED_COUNT);
    assert_eq!(e::EVENT_HEADER_FLAG_32_BIT_HEADER as u16, EVENT_HEADER_FLAG_32_BIT_HEADER);
    assert_eq!(e::TDH_INTYPE_UNICODESTRING, TDH_INTYPE_UNICODESTRING);
    assert_eq!(e::TDH_INTYPE_ANSISTRING, TDH_INTYPE_ANSISTRING);
    assert_eq!(e::TDH_INTYPE_INT8, TDH_INTYPE_INT8);
    assert_eq!(e::TDH_INTYPE_UINT8, TDH_INTYPE_UINT8);
    assert_eq!(e::TDH_INTYPE_INT16, TDH_INTYPE_INT16);
    assert_eq!(e::TDH_INTYPE_UINT16, TDH_INTYPE_UINT16);
    assert_eq!(e::TDH_INTYPE_INT32, TDH_INTYPE_INT32);
    assert_eq!(e::TDH_INTYPE_UINT32, TDH_INTYPE_UINT32);
    assert_eq!(e::TDH_INTYPE_INT64, TDH_INTYPE_INT64);
    assert_eq!(e::TDH_INTYPE_UINT64, TDH_INTYPE_UINT64);
    assert_eq!(e::TDH_INTYPE_FLOAT, TDH_INTYPE_FLOAT);
    assert_eq!(e::TDH_INTYPE_DOUBLE, TDH_INTYPE_DOUBLE);
    assert_eq!(e::TDH_INTYPE_BOOLEAN, TDH_INTYPE_BOOLEAN);
    assert_eq!(e::TDH_INTYPE_GUID, TDH_INTYPE_GUID);
    assert_eq!(e::TDH_INTYPE_POINTER, TDH_INTYPE_POINTER);
    assert_eq!(e::TDH_INTYPE_FILETIME, TDH_INTYPE_FILETIME);
    assert_eq!(e::TDH_INTYPE_SYSTEMTIME, TDH_INTYPE_SYSTEMTIME);
    assert_eq!(e::TDH_INTYPE_HEXINT32, TDH_INTYPE_HEXINT32);
    assert_eq!(e::TDH_INTYPE_HEXINT64, TDH_INTYPE_HEXINT64);
    assert_eq!(e::TDH_INTYPE_MANIFEST_COUNTEDSTRING, TDH_INTYPE_MANIFEST_COUNTEDSTRING);
    assert_eq!(e::TDH_INTYPE_MANIFEST_COUNTEDANSISTRING, TDH_INTYPE_MANIFEST_COUNTEDANSISTRING);
    assert_eq!(e::TDH_INTYPE_MANIFEST_COUNTEDBINARY, TDH_INTYPE_MANIFEST_COUNTEDBINARY);
    assert_eq!(e::TDH_INTYPE_COUNTEDSTRING, TDH_INTYPE_COUNTEDSTRING);
    assert_eq!(e::TDH_INTYPE_COUNTEDANSISTRING, TDH_INTYPE_COUNTEDANSISTRING);
    assert_eq!(e::TDH_INTYPE_UNICODECHAR, TDH_INTYPE_UNICODECHAR);
    assert_eq!(e::TDH_INTYPE_ANSICHAR, TDH_INTYPE_ANSICHAR);
    assert_eq!(e::TDH_INTYPE_SIZET, TDH_INTYPE_SIZET);
}

/// A property for `schema`: flags, name, `InType` (or first member of a
/// struct), member count and `count`.
struct Prop {
    flags: u32,
    name: &'static str,
    in_type: u16,
    members: u16,
    count: u16,
}

fn prop(flags: u32, name: &'static str, in_type: u16, members: u16, count: u16) -> Prop {
    Prop { flags, name, in_type, members, count }
}

/// A `TRACE_EVENT_INFO` buffer with `props`, the first `top` of them top
/// level.
fn schema(props: &[Prop], top: u32) -> Vec<u8> {
    let mut buf = vec![0u8; 112 + 24 * props.len()];
    if buf.len() < 136 {
        buf.resize(136, 0);
    }
    buf[100..104].copy_from_slice(&(props.len() as u32).to_ne_bytes());
    buf[104..108].copy_from_slice(&top.to_ne_bytes());
    for (i, p) in props.iter().enumerate() {
        let base = 112 + 24 * i;
        let name_offset = buf.len() as u32;
        for c in p.name.encode_utf16() {
            buf.extend_from_slice(&c.to_le_bytes());
        }
        buf.extend_from_slice(&[0, 0]);
        buf[base..base + 4].copy_from_slice(&p.flags.to_ne_bytes());
        buf[base + 4..base + 8].copy_from_slice(&name_offset.to_ne_bytes());
        buf[base + 8..base + 10].copy_from_slice(&p.in_type.to_ne_bytes());
        buf[base + 10..base + 12].copy_from_slice(&p.members.to_ne_bytes());
        buf[base + 16..base + 18].copy_from_slice(&p.count.to_ne_bytes());
    }
    buf
}

fn summary(f: &EventFormat) -> Vec<(String, String, LocationType, usize, usize)> {
    f.fields()
        .iter()
        .map(|x| (x.name.clone(), x.field_type.clone(), x.location, x.offset, x.size))
        .collect()
}

#[test]
fn tdh_parse_flat_and_dynamic() {
    let buf = schema(
        &[
            prop(0, "a", 8, 0, 0),
            prop(0, "p", 16, 0, 0),
            prop(0, "s", 1, 0, 0),
            prop(0, "b", 10, 0, 0),
            prop(0, "odd", 14, 0, 0),
        ],
        5,
    );
    assert!(schema_walk_terminates(&buf));
    let parsed = parse_trace_event_info(&buf, 4).unwrap();
    assert_eq!(
        summary(&parsed.format),
        vec![
            ("a".into(), "u32".into(), LocationType::Static, 0, 4),
            ("p".into(), "u32".into(), LocationType::Static, 4, 4),
            ("s".into(), "wstring".into(), LocationType::StaticUTF16String, 8, 0),
            ("b".into(), "u64".into(), LocationType::Static, 0, 8),
            ("odd".into(), "object".into(), LocationType::Static, 0, 0),
        ]
    );
}

#[test]
fn tdh_parse_structs_and_placeholders() {
    let buf = schema(
        &[
            prop(1, "outer", 2, 2, 0),
            prop(0, "z", 4, 0, 2),
            prop(0, "x", 3, 0, 0),
            prop(0, "y", 5, 0, 0),
        ],
        2,
    );
    let parsed = parse_trace_event_info(&buf, 8).unwrap();
    assert_eq!(
        summary(&parsed.format),
        vec![
            ("outer.x".into(), "s8".into(), LocationType::Static, 0, 1),
            ("outer.y".into(), "s16".into(), LocationType::Static, 1, 2),
            ("z".into(), "object".into(), LocationType::Static, 3, 0),
        ]
    );

    /* A property whose name offset is 0 is called by its index. */
    let mut buf = schema(&[prop(0, "n", 4, 0, 0), prop(0, "m", 4, 0, 0)], 2);
    buf[112 + 24 + 4..112 + 24 + 8].copy_from_slice(&0u32.to_ne_bytes());
    let parsed = parse_trace_event_info(&buf, 8).unwrap();
    assert_eq!(parsed.format.fields()[1].name, "field1");
    assert_eq!(parsed.format.fields()[1].offset, 1);
}

#[test]
fn tdh_parse_rejects_malformed() {
    let err = |buf: &[u8]| match parse_trace_event_info(buf, 8) {
        Err(TdhDecodeError::Malformed(m)) => m,
        _ => panic!("expected a malformed buffer"),
    };
    assert_eq!(err(&[0u8; 100]), "buffer smaller than TRACE_EVENT_INFO");
    let buf = schema(&[prop(0, "a", 8, 0, 0)], 2);
    assert_eq!(err(&buf), "TopLevelPropertyCount exceeds PropertyCount");
    let mut buf = schema(&[prop(0, "a", 8, 0, 0)], 1);
    buf[100..104].copy_from_slice(&1000u32.to_ne_bytes());
    assert_eq!(err(&buf), "property array extends past buffer");
}

#[test]
fn tdh_cyclic_structs_are_detected() {
    let buf = schema(&[prop(1, "loop", 0, 1, 0)], 1);
    assert!(!schema_walk_terminates(&buf));
    let buf = schema(&[prop(1, "s", 1, 1, 0), prop(0, "v", 4, 0, 0)], 1);
    assert!(schema_walk_terminates(&buf));
}

#[test]
fn wide_strings_in_buffers() {
    let mut buf = vec![0u8, 0];
    for c in [0x61u16, 0xDC00, 0x62, 0, 0x63] {
        buf.extend_from_slice(&c.to_le_bytes());
    }
    assert_eq!(read_wide_string_at(&buf, 2).unwrap(), "a\u{FFFD}b");
    assert_eq!(read_wide_string_at(&buf, 0), None);
    assert_eq!(read_wide_string_at(&buf, buf.len()), None);
    assert_eq!(read_wide_string_at(&buf, buf.len() - 1).unwrap(), "");
}

#[test]
fn tdh_status_decisions() {
    assert_eq!(ERROR_SUCCESS, windows_sys::Win32::Foundation::ERROR_SUCCESS);
    assert_eq!(ERROR_INSUFFICIENT_BUFFER, windows_sys::Win32::Foundation::ERROR_INSUFFICIENT_BUFFER);
    assert_eq!(ERROR_NOT_FOUND, windows_sys::Win32::Foundation::ERROR_NOT_FOUND);

    assert!(matches!(schema_probe_outcome(1168, 500), Err(TdhDecodeError::NotFound)));
    assert!(matches!(schema_probe_outcome(0, 500), Err(TdhDecodeError::Win32(0))));
    assert!(matches!(schema_probe_outcome(5, 500), Err(TdhDecodeError::Win32(5))));
    match schema_probe_outcome(122, 135) {
        Err(TdhDecodeError::Malformed(m)) => assert_eq!(m, "buffer smaller than TRACE_EVENT_INFO"),
        _ => panic!("expected a malformed error"),
    }
    assert!(matches!(schema_probe_outcome(122, 136), Ok(136)));
    assert!(matches!(schema_probe_outcome(122, 4096), Ok(4096)));

    assert!(schema_fill_outcome(0).is_ok());
    assert!(matches!(schema_fill_outcome(122), Err(TdhDecodeError::Win32(122))));
}

#[test]
fn schema_cache_fetches_once_per_kind() {
    let key = |id: u16| CacheKey {
        provider: Guid::from_u128(9),
        id,
        version: 1,
        opcode: 0,
        channel: 0,
        keyword: 0,
        pointer_size: 8,
    };
    let mut cache = SchemaCache::new();
    assert_eq!(cache.len(), 0);
    assert_eq!(cache.decode_step(&key(1)), DecodeAction::Fetch);
    assert!(cache.get(&key(1)).is_none());

    let mut format = EventFormat::new();
    format.add_field(field("a", "u8", LocationType::Static, 0, 1));
    assert!(cache.store_fetched(key(1), Ok(CachedSchema { format })).is_ok());
    assert_eq!(cache.len(), 1);
    assert_eq!(cache.decode_step(&key(1)), DecodeAction::Serve);
    assert_eq!(cache.get(&key(1)).unwrap().format.fields().len(), 1);

    /* Another kind of event is fetched on its own; a failed fetch caches nothing. */
    assert_eq!(cache.decode_step(&key(2)), DecodeAction::Fetch);
    assert!(matches!(
        cache.store_fetched(key(2), Err(TdhDecodeError::NotFound)),
        Err(TdhDecodeError::NotFound)
    ));
    assert_eq!(cache.len(), 1);
    assert!(!cache.contains_key(&key(2)));

    let mut other = key(1);
    other.provider = Guid::from_u128(10);
    assert_eq!(cache.decode_step(&other), DecodeAction::Fetch);
    cache.insert_new(other, CachedSchema { format: EventFormat::new() });
    assert_eq!(cache.len(), 2);
    assert_eq!(cache.get(&other).unwrap().format.fields().len(), 0);
    assert_eq!(cache.get(&key(1)).unwrap().format.fields().len(), 1);
}

#[test]
fn enable_status_decisions() {
    assert!(enable_outcome(0).is_ok());
    let e = enable_outcome(87).unwrap_err();
    assert_eq!(e, EnableTraceError { status: 87 });
    assert_eq!(e.message(), "EnableTraceEx2 failed with 87");
    assert_eq!(EnableTraceError { status: u32::MAX }.message(), "EnableTraceEx2 failed with 4294967295");
}
