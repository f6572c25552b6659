//! Maps, integers, texts and rewards.
use qlib_core::integer::Integer;
use qlib_core::ordered::{IdMap, OrderedMap};
use qlib_core::reward::Reward;
use qlib_core::text::{append_repeated, decimal_chars, from_chars, same_text, text_less, to_chars};

#[test]
fn maps_keep_the_order_of_first_insertion() {
    let mut map: OrderedMap<u8> = OrderedMap::new();
    assert!(map.is_empty());
    map.insert("b".to_owned(), 1);
    map.insert("a".to_owned(), 2);
    map.insert("b".to_owned(), 3);
    assert_eq!(map.len(), 2);
    assert_eq!((map.name_at(0).as_str(), *map.value_at(0)), ("b", 3));
    assert_eq!(map.position("a"), Some(1));
    assert_eq!(map.get("c"), None);
    assert!(map.contains("a"));
    assert_eq!(map.replace(1, 9), 2);
    assert_eq!(map.get("a"), Some(&9));
    let mut ids: IdMap<u8> = IdMap::new();
    ids.insert(70, 1);
    ids.insert(3, 2);
    ids.insert(70, 4);
    assert_eq!((ids.len(), ids.id_at(0), *ids.value_at(0), ids.position(3)), (2, 70, 4, Some(1)));
    assert_eq!(ids.replace(1, 5), 2);
    assert_eq!(ids.get(3), Some(&5));
    assert!(!ids.contains(4));
}

#[test]
fn integers_have_no_bound() {
    let large = Integer::from_usize(usize::MAX);
    let larger = large.plus(&large).next();
    assert_eq!(larger.text(), (2 * usize::MAX as u128 + 1).to_string());
    assert_eq!(larger.to_usize(), None);
    assert_eq!(larger.to_i128(), Some(2 * usize::MAX as i128 + 1));
    assert_eq!(Integer::from_i64(i64::MIN).text(), "-9223372036854775808");
    assert_eq!(Integer::from_i64(-1).to_usize(), None);
    assert!(Integer::from_i64(-6).divisible_by(&Integer::from_i64(3)));
    assert!(!Integer::from_i64(-7).divisible_by(&Integer::from_i64(3)));
    assert!(Integer::from_i64(-1).less(&Integer::zero()));
    assert!(!Integer::zero().less(&Integer::zero()));
    assert!(Integer::zero().is_zero() && !Integer::zero().is_positive());
    assert!(larger.copied().equals(&larger));
    assert!(!larger.equals(&large));
}

#[test]
fn texts_are_compared_by_characters() {
    assert!(same_text("a\u{e9}", "a\u{e9}"));
    assert!(!same_text("a", "ab"));
    assert!(text_less("a", "ab") && text_less("Z", "a") && !text_less("b", "a"));
    assert_eq!(from_chars(&to_chars("x\u{1f600}")), "x\u{1f600}");
    let mut chars = decimal_chars(1024);
    append_repeated(&mut chars, '0', 3);
    assert_eq!(from_chars(&chars), "1024000");
    assert_eq!(from_chars(&decimal_chars(0)), "0");
}

struct Doubled;

impl Reward<i64, i64> for Doubled {
    type Error = String;

    fn reward(&self, simulator_state: &i64) -> Result<i64, String> {
        simulator_state.checked_mul(2).ok_or("too large".to_owned())
    }
}

#[test]
fn rewards_are_called() {
    assert_eq!(Doubled.call(&4), Ok(8));
    assert_eq!(Doubled.call(&i64::MAX), Err("too large".to_owned()));
}
