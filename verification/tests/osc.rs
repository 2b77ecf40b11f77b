use vsm::json::Json;
use vsm::osc::{decode_osc, live_types, Message, OscError};

fn bits(value: &Json) -> u64 {
    value.bits().unwrap()
}

fn only(bytes: &[u8]) -> Message {
    let mut list = decode_osc(bytes).unwrap();
    assert_eq!(list.len(), 1);
    list.pop().unwrap()
}

fn bundle(elements: &[&[u8]]) -> Vec<u8> {
    let mut out = b"#bundle\0\0\0\0\0\0\0\0\x01".to_vec();
    for e in elements {
        out.extend_from_slice(&(e.len() as u32).to_be_bytes());
        out.extend_from_slice(e);
    }
    out
}

fn refused(bytes: &[u8]) -> OscError {
    decode_osc(bytes).unwrap_err()
}

#[test]
fn malformed_packets_are_atomic() {
    assert!(decode_osc(b"/a\0\0,f\0\0\x7f\xc0\0\0").is_err());
    assert!(decode_osc(b"/a\0\x01,T\0\0").is_err());
    assert!(decode_osc(b"/a\0\0,T\0\0\0").is_err());
    let m = decode_osc(b"/a\0\0,T\0\0").unwrap();
    assert!(matches!(m[0].values[..], [Json::Bool(true)]));
}

#[test]
fn values_are_read_by_their_tags() {
    let m = only(b"/a\0\0,fis\0\0\0\0\x3f\xc0\0\0\xff\xff\xff\xfehello\0\0\0");
    assert_eq!(m.address, "/a");
    assert_eq!(m.typetag, ",fis");
    assert_eq!(f64::from_bits(bits(&m.values[0])), 1.5);
    assert_eq!(m.values[0].signed(), None);
    assert_eq!(m.values[1].signed(), Some(-2));
    assert_eq!(m.values[1].unsigned(), None);
    assert_eq!(f64::from_bits(bits(&m.values[1])), -2.0);
    assert_eq!(m.values[2].text().unwrap(), "hello");
    let m = only(b"/b\0\0,F\0\0");
    assert!(matches!(m.values[..], [Json::Bool(false)]));
}

#[test]
fn singles_widen_to_the_doubles_they_equal() {
    for value in [0f32, -0.0, 1.0, -1.5, f32::MIN_POSITIVE, 1e-45, f32::MAX, 0.1] {
        let mut packet = b"/a\0\0,f\0\0".to_vec();
        packet.extend_from_slice(&value.to_be_bytes());
        let m = only(&packet);
        assert_eq!(bits(&m.values[0]), (value as f64).to_bits());
    }
}

#[test]
fn integers_are_read_as_the_doubles_they_equal() {
    for value in [0i32, 1, -1, 2, 3, i32::MAX, i32::MIN, 123456789] {
        let mut packet = b"/a\0\0,i\0\0".to_vec();
        packet.extend_from_slice(&value.to_be_bytes());
        let m = only(&packet);
        assert_eq!(m.values[0].signed(), Some(value as i64));
        assert_eq!(bits(&m.values[0]), (value as f64).to_bits());
    }
}

#[test]
fn bundles_give_their_messages_in_order() {
    let first: &[u8] = b"/a\0\0,T\0\0";
    let second: &[u8] = b"/b\0\0,F\0\0";
    let inner = bundle(&[second]);
    let list = decode_osc(&bundle(&[first, &inner, first])).unwrap();
    let names: Vec<&str> = list.iter().map(|m| m.address.as_str()).collect();
    assert_eq!(names, ["/a", "/b", "/a"]);
    assert_eq!(decode_osc(&bundle(&[])).unwrap().len(), 0);
}

#[test]
fn one_bad_element_spoils_its_bundle() {
    assert_eq!(refused(&bundle(&[b"/a\0\0,T\0\0", b"/b\0\0,x\0\0"])), OscError::Unsupported);
}

#[test]
fn packets_are_refused_for_what_is_wrong_with_them() {
    assert_eq!(refused(b""), OscError::Bounds);
    assert_eq!(refused(b"/abc"), OscError::Unterminated);
    assert_eq!(refused(b"/\xff\0\0,T\0\0"), OscError::Utf8);
    assert_eq!(refused(b"/abc\0"), OscError::ShortPadding);
    assert_eq!(refused(b"/a\0\x01,T\0\0"), OscError::Padding);
    assert_eq!(refused(b"/a\0\0,f\0\0\0\0"), OscError::ShortWord);
    assert_eq!(refused(b"#bundle\0\0\0\0\0"), OscError::ShortBundle);
    let mut cut = bundle(&[b"/a\0\0,T\0\0"]);
    cut.pop();
    assert_eq!(refused(&cut), OscError::Length);
    assert_eq!(refused(b"a\0\0\0,T\0\0"), OscError::Address);
    assert_eq!(refused(b"/a\0\0T\0\0\0"), OscError::Typetag);
    assert_eq!(refused(b"/a\0\0,f\0\0\x7f\xc0\0\0"), OscError::Nonfinite);
    assert_eq!(refused(b"/a\0\0,d\0\0"), OscError::Unsupported);
    assert_eq!(refused(b"/a\0\0,T\0\0\0"), OscError::Trailing);
    let mut nested = b"/a\0\0,T\0\0".to_vec();
    for _ in 0..8 {
        nested = bundle(&[&nested]);
    }
    assert!(decode_osc(&nested).is_ok());
    assert_eq!(refused(&bundle(&[&nested])), OscError::Bounds);
}

#[test]
fn live_addresses_have_their_types() {
    let types = live_types();
    assert_eq!(types.get("/usercamera/Pose").unwrap(), "ffffff");
    assert_eq!(types.get("/avatar/change").unwrap(), "s");
    assert_eq!(types.get("/avatar/parameters/ScaleFactor").unwrap(), "f");
    assert_eq!(types.get("/avatar/parameters/VBS/Ref/mouth/p/x+").unwrap(), "f");
    assert!(types.get("/elsewhere").is_none());
}
