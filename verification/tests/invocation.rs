use rofi_taskwarrior::error::Error;
use rofi_taskwarrior::rofi::{Invocation, Keybinding, Retv};
use rofi_taskwarrior::token::Info;

fn some(text: &str) -> Option<String> {
    Some(text.to_string())
}

#[test]
fn selector_zero_is_initial_without_argument() {
    let r = Invocation::env(some("1"), some("0"), None, None).unwrap();
    assert_eq!(r.how, Retv::Initial);
    assert_eq!(r.info, None);
    assert_eq!(r.outside, "1");
}

#[test]
fn selector_zero_passes_over_an_argument() {
    let r = Invocation::env(some("1"), some("0"), None, some("row")).unwrap();
    assert_eq!(r.how, Retv::Initial);
}

#[test]
fn selector_one_without_argument_is_a_format_error() {
    assert_eq!(
        Invocation::env(some("1"), some("1"), None, None),
        Err(Error::Format)
    );
}

#[test]
fn selector_one_with_argument_is_an_entry() {
    let r = Invocation::env(some("1"), some("1"), None, some("home  Buy milk")).unwrap();
    assert_eq!(r.how, Retv::Entry("home  Buy milk".to_string()));
}

#[test]
fn selector_two_without_argument_is_a_format_error() {
    assert_eq!(
        Invocation::env(some("1"), some("2"), None, None),
        Err(Error::Format)
    );
}

#[test]
fn selector_two_with_argument_is_custom_text() {
    let r = Invocation::env(some("1"), some("2"), None, some("water plants")).unwrap();
    assert_eq!(r.how, Retv::Custom("water plants".to_string()));
}

#[test]
fn selector_thirteen_is_key_three() {
    let r = Invocation::env(some("1"), some("13"), None, None).unwrap();
    assert_eq!(
        r.how,
        Retv::Key(Keybinding {
            key: 3,
            entry: None
        })
    );
}

#[test]
fn key_binding_keeps_the_selection() {
    let r = Invocation::env(some("1"), some("10"), None, some("row")).unwrap();
    assert_eq!(
        r.how,
        Retv::Key(Keybinding {
            key: 0,
            entry: some("row")
        })
    );
}

#[test]
fn selectors_at_the_edges_of_the_key_range() {
    assert_eq!(
        Invocation::env(some("1"), some("9"), None, None),
        Err(Error::Format)
    );
    assert_eq!(
        Invocation::env(some("1"), some("28"), None, None)
            .unwrap()
            .how,
        Retv::Key(Keybinding {
            key: 18,
            entry: None
        })
    );
    assert_eq!(
        Invocation::env(some("1"), some("29"), None, None),
        Err(Error::Format)
    );
    assert_eq!(
        Invocation::env(some("1"), some("3"), None, some("row")),
        Err(Error::Format)
    );
}

#[test]
fn missing_marker_is_a_config_error() {
    assert_eq!(
        Invocation::env(None, some("0"), None, None),
        Err(Error::Config)
    );
}

#[test]
fn missing_selector_is_a_config_error() {
    assert_eq!(
        Invocation::env(some("1"), None, None, None),
        Err(Error::Config)
    );
}

#[test]
fn missing_marker_comes_before_a_malformed_selector() {
    assert_eq!(
        Invocation::env(None, some("x"), some("junk"), None),
        Err(Error::Config)
    );
}

#[test]
fn selector_that_is_no_number_is_a_format_error() {
    for text in ["", "x", "1x", " 1", "1 ", "-1", "+", "0x10", "1.0", "\u{663}"] {
        assert_eq!(
            Invocation::env(some("1"), some(text), None, some("row")),
            Err(Error::Format),
            "selector {:?}",
            text
        );
    }
}

#[test]
fn selector_beyond_a_byte_is_a_format_error() {
    assert_eq!(
        Invocation::env(some("1"), some("256"), None, None),
        Err(Error::Format)
    );
    assert_eq!(
        Invocation::env(some("1"), some("99999999999999999999999999"), None, None),
        Err(Error::Format)
    );
}

#[test]
fn selector_with_plus_sign_and_leading_zeros() {
    assert_eq!(
        Invocation::env(some("1"), some("+13"), None, None)
            .unwrap()
            .how,
        Retv::Key(Keybinding {
            key: 3,
            entry: None
        })
    );
    assert_eq!(
        Invocation::env(some("1"), some("0000013"), None, None)
            .unwrap()
            .how,
        Retv::Key(Keybinding {
            key: 3,
            entry: None
        })
    );
    assert_eq!(
        Invocation::env(some("1"), some("000"), None, None)
            .unwrap()
            .how,
        Retv::Initial
    );
}

#[test]
fn token_is_decoded() {
    let r = Invocation::env(some("1"), some("1"), some("gaZDaG9vc2UH"), some("row")).unwrap();
    assert_eq!(r.info, Some(Info::Choose(7)));
}

#[test]
fn token_with_unknown_tag_fails_the_invocation() {
    assert_eq!(
        Invocation::env(some("1"), some("1"), some("gaVCb2d1cwE="), some("row")),
        Err(Error::Decode)
    );
}

#[test]
fn token_that_cannot_be_read_fails_even_before_any_menu() {
    assert_eq!(
        Invocation::env(some("1"), some("0"), some("%%%"), None),
        Err(Error::Decode)
    );
}

#[test]
fn malformed_selector_comes_before_an_unreadable_token() {
    assert_eq!(
        Invocation::env(some("1"), some("x"), some("%%%"), None),
        Err(Error::Format)
    );
}

#[test]
fn unreadable_token_comes_before_a_selector_without_its_argument() {
    assert_eq!(
        Invocation::env(some("1"), some("1"), some("%%%"), None),
        Err(Error::Decode)
    );
}
