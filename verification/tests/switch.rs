use yew_router::route::Route;
use yew_router::switch::{AllowMissing, LeadingSlash, Switch};
use yew_router::nonzero::{NonZeroI128, NonZeroI8, NonZeroU16, NonZeroU8};

#[test]
fn isize_build_route() {
    let mut route = "/".to_string();
    let mut _state: Option<String> = None;
    _state = _state.or((-432isize).build_route_section(&mut route));
    assert_eq!(route, "/-432".to_string());
}

#[test]
fn can_get_string_from_empty_str() {
    let (s, _state) = String::from_route_part::<()>(Route {
        route: "".to_string(),
        state: None,
    });
    assert_eq!(s, Some("".to_string()))
}

#[test]
fn can_get_option_string_from_empty_str() {
    let (s, _state): (Option<Option<String>>, Option<()>) = Option::from_route_part(Route {
        route: "".to_string(),
        state: None,
    });
    assert_eq!(s, Some(Some("".to_string())))
}

use yew_router::uuid_switch::UuidValue;

#[test]
fn uuid_from_route() {
    let x = UuidValue::switch::<()>(Route {
        route: "5dc48134-35b5-4b8c-aa93-767bf00ae1d8".to_string(),
        state: None,
    });
    assert!(x.is_some())
}

#[test]
fn uuid_to_route() {
    let id = UuidValue::switch::<()>(Route {
        route: "5dc48134-35b5-4b8c-aa93-767bf00ae1d8".to_string(),
        state: None,
    })
    .expect("should parse");
    let mut buf = String::new();
    id.build_route_section::<()>(&mut buf);
    assert_eq!(buf, "5dc48134-35b5-4b8c-aa93-767bf00ae1d8".to_string())
}

#[test]
fn uuid_value_and_bad_text() {
    let id = UuidValue::switch::<()>(Route {
        route: "00000000-0000-0000-0000-00000000002a".to_string(),
        state: None,
    })
    .expect("should parse");
    assert_eq!(id, UuidValue(42));
    assert!(UuidValue::switch::<()>(Route { route: "not-a-uuid".to_string(), state: None }).is_none());
}

#[test]
fn integers_read_and_write() {
    let mut route = String::new();
    let _: Option<()> = 255u8.build_route_section(&mut route);
    assert_eq!(route, "255");
    assert_eq!(u8::switch::<()>(Route { route: "255".to_string(), state: None }), Some(255));
    assert_eq!(u8::switch::<()>(Route { route: "256".to_string(), state: None }), None);
    assert_eq!(i8::switch::<()>(Route { route: "-128".to_string(), state: None }), Some(-128));
    assert_eq!(i8::switch::<()>(Route { route: "+7".to_string(), state: None }), Some(7));
    assert_eq!(usize::switch::<()>(Route { route: "-1".to_string(), state: None }), None);
    assert_eq!(i64::switch::<()>(Route { route: "".to_string(), state: None }), None);
}

#[test]
fn state_is_passed_on() {
    let (v, state) = u32::from_route_part(Route { route: "7".to_string(), state: Some(5u8) });
    assert_eq!(v, Some(7));
    assert_eq!(state, Some(5));
}

#[test]
fn bool_reads_and_writes() {
    assert_eq!(bool::switch::<()>(Route { route: "true".to_string(), state: None }), Some(true));
    assert_eq!(bool::switch::<()>(Route { route: "False".to_string(), state: None }), None);
    let mut route = String::new();
    let _: Option<()> = false.build_route_section(&mut route);
    assert_eq!(route, "false");
}

#[test]
fn leading_slash_reads_and_writes() {
    let v = LeadingSlash::<u16>::switch::<()>(Route { route: "/12".to_string(), state: None });
    assert_eq!(v, Some(LeadingSlash(12)));
    assert_eq!(LeadingSlash::<u16>::switch::<()>(Route { route: "12".to_string(), state: None }), None);
    let mut route = String::new();
    let _: Option<()> = LeadingSlash(12u16).build_route_section(&mut route);
    assert_eq!(route, "/12");
}

#[test]
fn allow_missing_accepts_empty_or_slash() {
    let v = AllowMissing::<u16>::switch::<()>(Route { route: "".to_string(), state: None });
    assert_eq!(v, Some(AllowMissing(None)));
    let v = AllowMissing::<u16>::switch::<()>(Route { route: "/x".to_string(), state: None });
    assert_eq!(v, Some(AllowMissing(None)));
    let v = AllowMissing::<u16>::switch::<()>(Route { route: "x".to_string(), state: None });
    assert_eq!(v, None);
    let v = AllowMissing::<u16>::switch::<()>(Route { route: "3".to_string(), state: None });
    assert_eq!(v, Some(AllowMissing(Some(3))));
}

#[test]
fn option_reads_none_where_inner_fails() {
    let (v, state) = Option::<u8>::from_route_part(Route { route: "x".to_string(), state: Some(1u8) });
    assert_eq!(v, Some(None));
    assert_eq!(state, None);
    assert_eq!(Option::<u8>::key_not_available(), Some(None));
    assert_eq!(u8::key_not_available(), None);
}

#[test]
fn route_from_switch_value() {
    let r: Route<()> = yew_router::switch::build_route_from_switch(LeadingSlash(-5i32));
    assert_eq!(r.route, "/-5");
    assert_eq!(r.state, None);
}

#[test]
fn wide_integers_read_and_write() {
    let max = u128::MAX.to_string();
    assert_eq!(u128::switch::<()>(Route { route: max.clone(), state: None }), Some(u128::MAX));
    let over = "340282366920938463463374607431768211456".to_string();
    assert_eq!(u128::switch::<()>(Route { route: over, state: None }), None);
    let min = i128::MIN.to_string();
    assert_eq!(i128::switch::<()>(Route { route: min.clone(), state: None }), Some(i128::MIN));
    let mut route = String::new();
    let _: Option<()> = i128::MIN.build_route_section(&mut route);
    assert_eq!(route, min);
    let mut route = String::new();
    let _: Option<()> = u128::MAX.build_route_section(&mut route);
    assert_eq!(route, max);
    assert_eq!(i128::switch::<()>(Route { route: "-0".to_string(), state: None }), Some(0));
    assert_eq!(u128::switch::<()>(Route { route: "-0".to_string(), state: None }), None);
}

#[test]
fn non_zero_integers_read_and_write() {
    let five = NonZeroU8::switch::<()>(Route { route: "5".to_string(), state: None }).expect("five");
    assert_eq!(five.get(), 5);
    assert_eq!(NonZeroU8::switch::<()>(Route { route: "0".to_string(), state: None }), None);
    assert_eq!(NonZeroU16::switch::<()>(Route { route: "x".to_string(), state: None }), None);
    let neg = NonZeroI8::new(-12).expect("not zero");
    let r: Route<()> = yew_router::switch::build_route_from_switch(neg);
    assert_eq!(r.route, "-12");
    assert_eq!(NonZeroI8::switch::<()>(r), Some(neg));
    assert_eq!(NonZeroI128::new(0), None);
    assert_eq!(NonZeroU8::key_not_available(), None);
}

fn uuid_of(s: &str) -> Option<UuidValue> {
    UuidValue::switch::<()>(Route { route: s.to_string(), state: None })
}

#[test]
fn uuid_accepted_forms() {
    let v = UuidValue(0x936DA01F9ABD4D9D80C702AF85C822A8);
    assert_eq!(uuid_of("936DA01F-9ABD-4D9D-80C7-02AF85C822A8"), Some(v));
    assert_eq!(uuid_of("936da01f9abd4d9d80c702af85c822a8"), Some(v));
    assert_eq!(uuid_of("urn:uuid:936da01f-9abd-4d9d-80c7-02af85c822a8"), Some(v));
    assert_eq!(uuid_of("936da01f9-abd-4d9d-80c7-02af85c822a8"), None);
    assert_eq!(uuid_of("936da01f-9abd-4d9d-80c7-02af85c822a"), None);
    assert_eq!(uuid_of("936da01g-9abd-4d9d-80c7-02af85c822a8"), None);
    let r: Route<()> = yew_router::switch::build_route_from_switch(v);
    assert_eq!(r.route, "936da01f-9abd-4d9d-80c7-02af85c822a8");
    assert_eq!(UuidValue::switch::<()>(r), Some(v));
}
