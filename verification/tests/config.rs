use untitled_th::config::{parse_bool, parse_u32, Config, DEFAULT_HEIGHT, DEFAULT_WIDTH};

#[test]
fn the_defaults_of_the_window() {
    assert_eq!((DEFAULT_WIDTH, DEFAULT_HEIGHT), (1600, 900));
}

#[test]
fn each_line_with_an_equals_sign_is_an_option() {
    let config = Config::parse(b"width=800\nnote\n\ntitle=My = Game\n=x\nempty=\nheight=600");
    assert_eq!(config.get(b"width"), Some(&b"800".to_vec()));
    assert_eq!(config.get(b"title"), Some(&b"My = Game".to_vec()));
    assert_eq!(config.get(b""), Some(&b"x".to_vec()));
    assert_eq!(config.get(b"empty"), Some(&b"".to_vec()));
    assert_eq!(config.get(b"height"), Some(&b"600".to_vec()));
    assert_eq!(config.get(b"note"), None);
    assert_eq!(config.get(b"Width"), None);
    assert_eq!(Config::parse(b"").get(b"width"), None);
    assert_eq!(Config::new().get(b""), None);
}

#[test]
fn of_two_lines_with_one_key_the_first_counts() {
    let config = Config::parse(b"a=1\nb=2\na=3\n");
    assert_eq!(config.get(b"a"), Some(&b"1".to_vec()));
    assert_eq!(config.to_text(), b"a=1\nb=2\na=3\n".to_vec());
}

#[test]
fn a_default_becomes_the_value_of_a_missing_option() {
    let mut config = Config::parse(b"width=800\n");
    assert_eq!(config.or_default(b"width", b"1600"), b"800".to_vec());
    assert_eq!(config.or_default(b"title", b"PoolTouhou"), b"PoolTouhou".to_vec());
    assert_eq!(config.or_default(b"title", b"other"), b"PoolTouhou".to_vec());
    assert_eq!(config.to_text(), b"width=800\ntitle=PoolTouhou\n".to_vec());
}

#[test]
fn numbers_and_switches_are_read_from_their_options() {
    let mut config = Config::parse(b"width=800\nheight=tall\nprofile=false\nfast=yes");
    assert_eq!(config.u32_or_default(b"width", b"1600"), Some(800));
    assert_eq!(config.u32_or_default(b"height", b"900"), None);
    assert_eq!(config.u32_or_default(b"depth", b"32"), Some(32));
    assert_eq!(config.get(b"depth"), Some(&b"32".to_vec()));
    assert_eq!(config.bool_or_default(b"profile", b"true"), Some(false));
    assert_eq!(config.bool_or_default(b"fast", b"true"), None);
    assert_eq!(config.bool_or_default(b"vsync", b"true"), Some(true));
    assert_eq!(config.bool_or_default(b"vsync", b"false"), Some(true));
}

#[test]
fn a_number_is_made_of_decimal_digits() {
    assert_eq!(parse_u32(b"0"), Some(0));
    assert_eq!(parse_u32(b"1600"), Some(1600));
    assert_eq!(parse_u32(b"007"), Some(7));
    assert_eq!(parse_u32(b"4294967295"), Some(u32::MAX));
    assert_eq!(parse_u32(b"4294967296"), None);
    assert_eq!(parse_u32(b"99999999999"), None);
    assert_eq!(parse_u32(b""), None);
    assert_eq!(parse_u32(b"-1"), None);
    assert_eq!(parse_u32(b"+1"), None);
    assert_eq!(parse_u32(b"12a"), None);
    assert_eq!(parse_u32(b" 12"), None);
    assert_eq!(parse_u32(b"1.5"), None);
}

#[test]
fn a_switch_is_true_or_false() {
    assert_eq!(parse_bool(b"true"), Some(true));
    assert_eq!(parse_bool(b"false"), Some(false));
    assert_eq!(parse_bool(b"True"), None);
    assert_eq!(parse_bool(b"tru"), None);
    assert_eq!(parse_bool(b"truee"), None);
    assert_eq!(parse_bool(b"falsy"), None);
    assert_eq!(parse_bool(b""), None);
    assert_eq!(parse_bool(b"1"), None);
}

#[test]
fn options_that_were_written_are_read_back() {
    let mut config = Config::new();
    config.or_default(b"log_filters", b"");
    config.or_default(b"profile", b"true");
    config.or_default(b"title", b"a=b");
    let text = config.to_text();
    assert_eq!(text, b"log_filters=\nprofile=true\ntitle=a=b\n".to_vec());
    let again = Config::parse(&text);
    assert_eq!(again.to_text(), text);
    assert_eq!(again.get(b"title"), Some(&b"a=b".to_vec()));
}
