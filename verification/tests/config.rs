use life::config::{
    classify, read_argument, resolve_arena_size, resolve_ticks, Argument, Origin, Setting,
    DEFAULT_ARENA_SIZE, DEFAULT_TICKS,
};

#[test]
fn defaults() {
    assert_eq!(DEFAULT_ARENA_SIZE, 40);
    assert_eq!(DEFAULT_TICKS, 1000);
}

#[test]
fn an_option_that_was_not_given_is_absent() {
    assert_eq!(read_argument(None), Argument::Absent);
}

#[test]
fn a_number_is_read_as_its_value() {
    assert_eq!(read_argument(Some("12")), Argument::Number(12));
    assert_eq!(read_argument(Some("0")), Argument::Number(0));
    assert_eq!(read_argument(Some("4294967295")), Argument::Number(u32::MAX));
}

#[test]
fn a_text_that_is_no_number_is_malformed() {
    assert_eq!(read_argument(Some("twelve")), Argument::Malformed);
    assert_eq!(read_argument(Some("")), Argument::Malformed);
    assert_eq!(read_argument(Some("-3")), Argument::Malformed);
    assert_eq!(read_argument(Some("4294967296")), Argument::Malformed);
    assert_eq!(read_argument(Some("1 ")), Argument::Malformed);
}

#[test]
fn classify_tells_numbers_from_the_rest() {
    assert_eq!(classify(Some(7)), Argument::Number(7));
    assert_eq!(classify(None), Argument::Malformed);
}

#[test]
fn ticks_are_the_number_given_or_the_default() {
    assert_eq!(
        resolve_ticks(Argument::Absent),
        Setting { value: 1000, origin: Origin::Default }
    );
    assert_eq!(
        resolve_ticks(Argument::Number(3)),
        Setting { value: 3, origin: Origin::Given }
    );
    assert_eq!(
        resolve_ticks(Argument::Number(0)),
        Setting { value: 0, origin: Origin::Given }
    );
    assert_eq!(
        resolve_ticks(Argument::Malformed),
        Setting { value: 1000, origin: Origin::Fallback }
    );
}

#[test]
fn arena_size_is_the_positive_number_given_or_the_default() {
    assert_eq!(
        resolve_arena_size(Argument::Absent),
        Setting { value: 40, origin: Origin::Default }
    );
    assert_eq!(
        resolve_arena_size(Argument::Number(7)),
        Setting { value: 7, origin: Origin::Given }
    );
    assert_eq!(
        resolve_arena_size(Argument::Number(0)),
        Setting { value: 40, origin: Origin::Fallback }
    );
    assert_eq!(
        resolve_arena_size(Argument::Malformed),
        Setting { value: 40, origin: Origin::Fallback }
    );
}
