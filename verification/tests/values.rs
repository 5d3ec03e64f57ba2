use johnbox::acl::{Acl, Interest, Principle, Role};
use johnbox::decimal::{parse_signed, parse_unsigned, write_signed, write_unsigned};
use johnbox::entity::{JBAttributes, JBDoodle, JBLine, JBPoint, JBSize, JBType, Rgba};
use johnbox::json::{object_is_empty, Json, JsonObject};
use johnbox::text::{contains, replace_all, split, split_once, starts_with, trim};
use johnbox::token::{room_id, Token};

fn acl(text: &str) -> Acl {
    Acl::from_str(text).unwrap()
}

fn line(index: usize, layer: usize, points: usize) -> JBLine {
    let points = (0..points).map(|i| JBPoint { x: i as u32, y: 7 }).collect();
    JBLine { color: Rgba { r: 1, g: 2, b: 3, a: 4 }, weight: 5, layer, points, index }
}

fn doodle(lines: Vec<JBLine>) -> JBDoodle {
    JBDoodle {
        colors: vec![],
        live: false,
        max_points: 0,
        max_layer: 2,
        size: JBSize { width: 3, height: 4 },
        weights: None,
        lines,
    }
}

#[test]
fn acl_in_words() {
    assert_eq!(acl("r *").to_text(), "r *");
    assert_eq!(acl("rw id:-12").to_text(), "rw id:-12");
    assert_eq!(acl("wr role:player").to_text(), "rw role:player");
    assert_eq!(acl("wsrr role:host").to_text(), "srw role:host");
    assert_eq!(acl("w id:+5").to_text(), "w id:5");
}

#[test]
fn acl_that_says_nothing() {
    for text in ["", "r", " *", "x *", "rx *", "r role", "r role:king", "r id:", "r id:1.5", "r name:a"] {
        assert!(Acl::from_str(text).is_err(), "{}", text);
    }
    assert!(Acl::from_str("r id:9223372036854775807").is_ok());
    assert!(Acl::from_str("r id:9223372036854775808").is_err());
    assert!(Acl::from_str("r id:-9223372036854775808").is_ok());
}

#[test]
fn default_acl_lets_everybody_read() {
    let list = Acl::default_vec();
    assert_eq!(list.len(), 1);
    assert_eq!(list[0].to_text(), "r *");
    let a = JBAttributes { locked: false, acl: list };
    assert!(a.readable_by(Role::Audience, 3));
    assert!(!a.perms(Role::Player, 3).unwrap().is_writable());
    assert!(a.perms(Role::Host, 3).unwrap().is_writable());
}

#[test]
fn principles_match() {
    assert!(Principle::Wild.matches(Role::Moderator, 9));
    assert!(Principle::Id(4).matches(Role::Player, 4));
    assert!(!Principle::Id(4).matches(Role::Player, 5));
    assert!(Principle::Role(Role::Player).matches(Role::Player, 1));
    assert!(!Principle::Role(Role::Player).matches(Role::Audience, 1));
}

#[test]
fn permissions_add_up() {
    let a = JBAttributes { locked: false, acl: vec![acl("r role:player"), acl("w id:2"), acl("s id:3")] };
    let p = a.perms(Role::Player, 2).unwrap();
    assert!(p.is_readable() && p.is_writable() && !p.is_priority());
    let p = a.perms(Role::Player, 3).unwrap();
    assert!(p.is_readable() && !p.is_writable() && p.is_priority());
    assert!(a.perms(Role::Audience, 9).is_none());
    assert!(!a.readable_by(Role::Audience, 2));
    let h = a.perms(Role::Host, 9).unwrap();
    assert!(h.is_readable() && h.is_writable() && !h.is_priority());
    let i = Interest::readable().or(Interest::priority());
    assert!(i.is_readable() && i.is_priority() && !i.is_writable());
}

#[test]
fn longer_lists_allow_no_less() {
    let few = JBAttributes { locked: false, acl: vec![acl("s id:2"), acl("r *")] };
    let more = JBAttributes { locked: false, acl: vec![acl("w id:3"), acl("r *"), acl("s id:2")] };
    for id in 1..5 {
        let p = few.perms(Role::Player, id).unwrap();
        let q = more.perms(Role::Player, id).unwrap();
        assert!(!p.is_readable() || q.is_readable());
        assert!(!p.is_writable() || q.is_writable());
        assert!(!p.is_priority() || q.is_priority());
    }
    assert!(more.perms(Role::Player, 2).unwrap().is_priority());
    assert!(more.perms(Role::Player, 3).unwrap().is_writable());
}

#[test]
fn roles_and_types_read_back() {
    for r in [Role::Host, Role::Player, Role::Audience, Role::Moderator] {
        assert_eq!(Role::from_str(r.to_text().as_str()), Ok(r));
    }
    assert!(Role::from_str("Host").is_err());
    for t in [JBType::Text, JBType::Number, JBType::Object, JBType::Doodle] {
        assert_eq!(JBType::from_str(t.to_text().as_str()), Ok(t));
    }
    assert_eq!(JBType::Doodle.to_text(), "doodle");
    assert!(JBType::from_str("lock").is_err());
}

#[test]
fn tokens_read_back() {
    let t = Token::from([0, 1, 2, 15, 16, 31, 32, 127, 128, 200, 254, 255]);
    assert_eq!(t.to_text(), "0001020f101f207f80c8feff");
    let u = Token::from_str("0001020F101f207f80c8FEff").unwrap();
    assert_eq!(u.to_text(), t.to_text());
    assert!(Token::from_str("0001").is_none());
    assert!(Token::from_str("0001020f101f207f80c8fefg").is_none());
}

#[test]
fn tokens_from_seeds() {
    let a = Token::from_seed(1).to_text();
    let b = Token::from_seed(2).to_text();
    assert_eq!(a, Token::from_seed(1).to_text());
    assert_ne!(a, b);
    assert_ne!(a, "010000000000000000000000");
    assert_eq!(a.len(), 24);
}

#[test]
fn tokens_are_drawn() {
    assert_ne!(Token::random().to_text(), Token::random().to_text());
    assert_ne!(Token::random().to_text(), "000000000000000000000000");
}

#[test]
fn room_codes_are_four_capitals() {
    let mut seen = vec![];
    for _ in 0..40 {
        let c = room_id();
        assert_eq!(c.len(), 4);
        assert!(c.chars().all(|c| c.is_ascii_uppercase()));
        seen.push(c);
    }
    seen.sort();
    seen.dedup();
    assert!(seen.len() > 1);
}

#[test]
fn lines_are_kept_in_order() {
    let mut d = doodle(vec![]);
    for i in [5, 1, 3, 1, 9, 0] {
        d.add_line(line(i, 0, 2));
    }
    let order: Vec<usize> = d.lines.iter().map(|l| l.index).collect();
    assert_eq!(order, vec![0, 1, 1, 3, 5, 9]);
}

#[test]
fn drawings_are_painted() {
    let d = doodle(vec![line(0, 1, 3), line(1, 9, 0), line(2, 0, 2)]);
    assert!(d.is_renderable());
    let plan = d.render();
    assert_eq!(plan.layers, 2);
    assert_eq!(plan.overlays, vec![1]);
    assert_eq!(plan.size, JBSize { width: 3, height: 4 });
    assert_eq!(plan.strokes.len(), 2);
    assert_eq!(plan.strokes[0].layer, 1);
    assert_eq!(plan.strokes[0].start, JBPoint { x: 0, y: 7 });
    assert_eq!(plan.strokes[0].rest, vec![JBPoint { x: 1, y: 7 }, JBPoint { x: 2, y: 7 }]);
    assert_eq!(plan.strokes[1].layer, 0);
    assert_eq!(plan.strokes[1].weight, 5);
}

#[test]
fn lines_on_different_layers_swap() {
    let on = |d: &JBDoodle, layer: usize| {
        let strokes = d.render().strokes;
        strokes.into_iter().filter(|s| s.layer == layer).map(|s| s.rest.len()).collect::<Vec<_>>()
    };
    let a = doodle(vec![line(0, 0, 2), line(1, 1, 3), line(2, 0, 4), line(3, 1, 5)]);
    let b = doodle(vec![line(0, 0, 2), line(2, 0, 4), line(1, 1, 3), line(3, 1, 5)]);
    let c = doodle(vec![line(2, 0, 4), line(0, 0, 2), line(1, 1, 3), line(3, 1, 5)]);
    assert_eq!(on(&a, 0), vec![1, 3]);
    assert_eq!(on(&a, 1), vec![2, 4]);
    assert_eq!(on(&b, 0), on(&a, 0));
    assert_eq!(on(&b, 1), on(&a, 1));
    assert_eq!(on(&c, 0), vec![3, 1]);
}

#[test]
fn drawings_that_cannot_be_painted() {
    assert!(!doodle(vec![line(0, 0, 1)]).is_renderable());
    assert!(!doodle(vec![line(0, 2, 2)]).is_renderable());
    let mut d = doodle(vec![]);
    d.size.width = 0;
    assert!(!d.is_renderable());
    let mut d = doodle(vec![]);
    d.max_layer = 0;
    assert!(!d.is_renderable());
    assert!(doodle(vec![]).is_renderable());
    assert_eq!(johnbox::entity::one(), 1);
}

#[test]
fn numbers_in_digits() {
    assert_eq!(parse_unsigned("255", 255), Some(255));
    assert_eq!(parse_unsigned("+05", 255), Some(5));
    assert_eq!(parse_unsigned("256", 255), None);
    assert_eq!(parse_unsigned("", 255), None);
    assert_eq!(parse_unsigned("+", 255), None);
    assert_eq!(parse_unsigned("-1", 255), None);
    assert_eq!(parse_unsigned("18446744073709551615", u64::MAX), Some(u64::MAX));
    assert_eq!(parse_unsigned("18446744073709551616", u64::MAX), None);
    assert_eq!(parse_signed("-9223372036854775808"), Some(i64::MIN));
    assert_eq!(parse_signed("-9223372036854775809"), None);
    assert_eq!(write_unsigned(0), "0");
    assert_eq!(write_unsigned(u64::MAX), "18446744073709551615");
    assert_eq!(write_signed(i64::MIN), "-9223372036854775808");
    assert_eq!(write_signed(-7), "-7");
}

#[test]
fn texts_are_cut() {
    assert_eq!(split("a/b//", '/'), vec!["a", "b", "", ""]);
    assert_eq!(split("", '/'), vec![""]);
    assert_eq!(split_once("5:::x::", "::"), Some(("5".to_owned(), ":x::".to_owned())));
    assert!(split_once("5:x", "::").is_none());
    assert_eq!(replace_all("aaa", "aa", "b"), "ba");
    assert_eq!(replace_all("x.y.z", ".", "--"), "x--y--z");
    assert!(contains("abc", "bc") && !contains("abc", "cb") && contains("", ""));
    assert!(starts_with("abc", "ab") && !starts_with("ab", "abc"));
    assert_eq!(trim(" \t\u{a0}br\u{2003}\n"), "br");
}

#[test]
fn empty_json_values() {
    assert!(object_is_empty(&Json::Null));
    assert!(object_is_empty(&Json::Text(String::new())));
    assert!(object_is_empty(&Json::Array(vec![])));
    assert!(object_is_empty(&Json::Object(JsonObject { members: vec![] })));
    assert!(!object_is_empty(&Json::Bool(false)));
    assert!(!object_is_empty(&Json::Number("0".to_owned())));
    assert!(!object_is_empty(&Json::Text("a".to_owned())));
    assert!(!object_is_empty(&Json::Array(vec!["null".to_owned()])));
    let members = vec![("a".to_owned(), "1".to_owned())];
    assert!(!object_is_empty(&Json::Object(JsonObject { members })));
}
