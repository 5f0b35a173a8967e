use bech32::ToBase32;
use cosmwasm_testing_util::api::{
    check_normalized, validate_length, MockApi, GAS_COST_CANONICALIZE, GAS_COST_HUMANIZE,
};
use cosmwasm_testing_util::backend::{BackendError, GasInfo};
use cosmwasm_testing_util::base32::{bytes_to_groups, groups_to_bytes, Decoded, Variant};
use cosmwasm_testing_util::errors::StdError;
use cosmwasm_testing_util::text::{format_amount, parse_amount};

const CREATOR: [u8; 32] = [
    0xbc, 0x6b, 0xfd, 0x84, 0x8e, 0xbd, 0x78, 0x19, 0xc9, 0xa8, 0x2b, 0xf1, 0x24, 0xd6, 0x5e, 0x7f,
    0x73, 0x9d, 0x08, 0xe0, 0x02, 0x60, 0x1e, 0x23, 0xbb, 0x90, 0x6a, 0xac, 0xd4, 0x0a, 0x3d, 0x81,
];

const CREATOR_JUNO: &str = "juno1h34lmpywh4upnjdg90cjf4j70aee6z8qqfspugamjp42e4q28kqsksmtyp";

fn user_err(msg: &str) -> BackendError {
    BackendError::UserErr { msg: msg.to_string() }
}

fn generic(msg: &str) -> StdError {
    StdError::GenericErr { msg: msg.to_string() }
}

fn decoded(prefix: &str, groups: Vec<u8>, variant: Variant) -> Option<Decoded> {
    Some(Decoded { prefix: prefix.to_string(), groups, variant })
}

#[test]
fn addresses_have_the_prefix_asked_for() {
    let api = MockApi::default().with_prefix("juno");
    assert_eq!(
        api.human_address(&CREATOR),
        (Ok(CREATOR_JUNO.to_string()), GasInfo { cost: GAS_COST_HUMANIZE, externally_used: 0 })
    );
    assert_eq!(
        api.canonical_address(CREATOR_JUNO),
        (Ok(CREATOR.to_vec()), GasInfo { cost: GAS_COST_CANONICALIZE, externally_used: 0 })
    );
    assert_eq!(api.addr_validate(CREATOR_JUNO), Ok(CREATOR_JUNO.to_string()));
}

#[test]
fn the_default_prefix_is_orai() {
    let api = MockApi::default();
    let text = api.addr_humanize(&CREATOR).unwrap();
    assert!(text.starts_with("orai1"));
    assert_eq!(api.addr_canonicalize(&text), Ok(CREATOR.to_vec()));
    assert_eq!(api.addr_validate(&text), Ok(text.clone()));
    // a prefix that was set takes the place of the default
    assert_eq!(
        api.with_prefix("juno").canonical_address(&text).0,
        Err(user_err("Wrong bech32 prefix"))
    );
}

#[test]
fn addresses_of_all_lengths_come_back() {
    let api = MockApi::default();
    for n in [1usize, 2, 3, 4, 5, 20, 32, 254, 255] {
        let canonical: Vec<u8> = (0..n).map(|i| (i * 37 + 11) as u8).collect();
        let text = api.human_address(&canonical).0.unwrap();
        assert_eq!(api.canonical_address(&text).0, Ok(canonical));
        assert_eq!(api.addr_validate(&text), Ok(text));
    }
}

#[test]
fn addresses_have_1_to_255_bytes() {
    let api = MockApi::default();
    let error = user_err("Invalid canonical address length");
    assert_eq!(api.human_address(&[]).0, Err(error.clone()));
    assert_eq!(api.human_address(&[0; 256]).0, Err(error.clone()));
    assert_eq!(validate_length(&[]), Err(error.clone()));
    assert_eq!(validate_length(&[0; 256]), Err(error.clone()));
    assert_eq!(validate_length(&[0]), Ok(()));
    assert_eq!(validate_length(&[0; 255]), Ok(()));
    let empty = bech32::encode("orai", Vec::<bech32::u5>::new(), bech32::Variant::Bech32).unwrap();
    assert_eq!(
        api.canonical_address(&empty),
        (Err(error.clone()), GasInfo { cost: 55, externally_used: 0 })
    );
    let long = bech32::encode("orai", vec![1u8; 256].to_base32(), bech32::Variant::Bech32).unwrap();
    assert_eq!(api.canonical_address(&long).0, Err(error));
}

#[test]
fn texts_that_are_no_address_are_refused() {
    let api = MockApi::default();
    let gas = GasInfo { cost: 55, externally_used: 0 };
    assert_eq!(
        api.canonical_address("nonsense"),
        (Err(user_err("Error decoding bech32")), gas)
    );
    // one letter changed
    let mut text = api.human_address(&CREATOR).0.unwrap();
    text.replace_range(5..6, "q");
    assert_eq!(api.canonical_address(&text).0, Err(user_err("Error decoding bech32")));
    assert_eq!(
        api.canonical_address(CREATOR_JUNO),
        (Err(user_err("Wrong bech32 prefix")), gas)
    );
    let newer = bech32::encode("orai", CREATOR.to_base32(), bech32::Variant::Bech32m).unwrap();
    assert_eq!(api.canonical_address(&newer), (Err(user_err("Wrong bech32 variant")), gas));
    // the prefix is looked at before the variant
    let other = bech32::encode("juno", CREATOR.to_base32(), bech32::Variant::Bech32m).unwrap();
    assert_eq!(api.canonical_address(&other).0, Err(user_err("Wrong bech32 prefix")));
    let one = bech32::u5::try_from_u8(1).unwrap();
    let odd = bech32::encode("orai", vec![one], bech32::Variant::Bech32).unwrap();
    assert_eq!(api.canonical_address(&odd), (Err(user_err("Invalid bech32 data")), gas));
}

#[test]
fn prefixes_must_be_valid() {
    for prefix in ["", "two words", "Mixed", "\u{e9}"] {
        let api = MockApi::default().with_prefix(prefix);
        assert_eq!(
            api.human_address(&CREATOR),
            (
                Err(user_err("Invalid bech32 prefix")),
                GasInfo { cost: 44, externally_used: 0 }
            )
        );
    }
    // the length is looked at first
    assert_eq!(
        MockApi::default().with_prefix("").human_address(&[]).0,
        Err(user_err("Invalid canonical address length"))
    );
}

#[test]
fn a_prefix_in_upper_case_is_written_in_lower_case() {
    let api = MockApi::default().with_prefix("JUNO");
    let text = api.human_address(&CREATOR).0.unwrap();
    assert_eq!(text, CREATOR_JUNO);
    assert_eq!(api.canonical_address(&text).0, Err(user_err("Wrong bech32 prefix")));
}

#[test]
fn addresses_in_upper_case_can_be_read_but_are_not_normal() {
    let api = MockApi::default().with_prefix("juno");
    let upper = CREATOR_JUNO.to_uppercase();
    assert_eq!(api.addr_canonicalize(&upper), Ok(CREATOR.to_vec()));
    assert_eq!(
        api.addr_validate(&upper),
        Err(generic("Invalid input: address not normalized"))
    );
    assert_eq!(check_normalized("a", &"a".to_string()), Ok("a".to_string()));
    assert_eq!(
        check_normalized("A", &"a".to_string()),
        Err(generic("Invalid input: address not normalized"))
    );
}

#[test]
fn errors_are_told_by_their_text() {
    let api = MockApi::default();
    let text = "User error during call into backend: Error decoding bech32";
    assert_eq!(api.addr_canonicalize("x"), Err(generic(text)));
    assert_eq!(api.addr_validate("x"), Err(generic(text)));
    assert_eq!(
        api.addr_humanize(&[]),
        Err(generic("User error during call into backend: Invalid canonical address length"))
    );
}

#[test]
fn a_failing_interface_fails_on_every_address() {
    let api = MockApi::new_failing("out of order");
    let error = BackendError::Unknown { msg: "out of order".to_string() };
    assert_eq!(
        api.canonical_address(CREATOR_JUNO),
        (Err(error.clone()), GasInfo { cost: 55, externally_used: 0 })
    );
    assert_eq!(
        api.human_address(&CREATOR),
        (Err(error), GasInfo { cost: 44, externally_used: 0 })
    );
    assert_eq!(
        api.addr_validate(CREATOR_JUNO),
        Err(generic("Unknown error during call into backend: out of order"))
    );
    // setting a prefix mends it
    assert!(api.with_prefix("juno").addr_validate(CREATOR_JUNO).is_ok());
}

#[test]
fn decoded_texts_are_judged_in_order() {
    let api = MockApi::default();
    let groups = bytes_to_groups(&CREATOR);
    let read = |d| api.canonical_from_decoded(d).0;
    assert_eq!(read(None), Err(user_err("Error decoding bech32")));
    assert_eq!(
        read(decoded("juno", groups.clone(), Variant::Bech32m)),
        Err(user_err("Wrong bech32 prefix"))
    );
    assert_eq!(
        read(decoded("orai", groups.clone(), Variant::Bech32m)),
        Err(user_err("Wrong bech32 variant"))
    );
    assert_eq!(
        read(decoded("orai", vec![31], Variant::Bech32)),
        Err(user_err("Invalid bech32 data"))
    );
    assert_eq!(
        read(decoded("orai", vec![], Variant::Bech32)),
        Err(user_err("Invalid canonical address length"))
    );
    assert_eq!(read(decoded("orai", groups, Variant::Bech32)), Ok(CREATOR.to_vec()));
}

#[test]
fn bytes_are_regrouped() {
    assert_eq!(bytes_to_groups(&[]), Vec::<u8>::new());
    assert_eq!(bytes_to_groups(&[0xff]), vec![31, 28]);
    assert_eq!(bytes_to_groups(&[0, 1, 2]), vec![0, 0, 0, 16, 4]);
    assert_eq!(groups_to_bytes(&[31, 28]), Some(vec![0xff]));
    assert_eq!(groups_to_bytes(&[0, 0, 0, 16, 4]), Some(vec![0, 1, 2]));
    // bits left over that are not zero
    assert_eq!(groups_to_bytes(&[31, 29]), None);
    // too many bits left over
    assert_eq!(groups_to_bytes(&[0]), None);
    assert_eq!(groups_to_bytes(&[31, 28, 0]), None);
    assert_eq!(groups_to_bytes(&[]), Some(vec![]));
    assert_eq!(groups_to_bytes(&bytes_to_groups(&CREATOR)), Some(CREATOR.to_vec()));
}

#[test]
fn amounts_are_read_and_written() {
    assert_eq!(format_amount(0), "0");
    assert_eq!(format_amount(1_000_230), "1000230");
    assert_eq!(format_amount(u128::MAX), "340282366920938463463374607431768211455");
    assert_eq!(parse_amount("0"), Some(0));
    assert_eq!(parse_amount("000123"), Some(123));
    assert_eq!(parse_amount("+7"), Some(7));
    assert_eq!(parse_amount(&format_amount(u128::MAX)), Some(u128::MAX));
    for text in [
        "",
        "+",
        "-1",
        "-0",
        "1 ",
        "1.0",
        "++1",
        "0x1",
        "\u{663}",
        "340282366920938463463374607431768211456",
    ] {
        assert_eq!(parse_amount(text), None, "{text}");
    }
}

#[test]
fn writing_what_was_read_gives_the_text_in_lower_case() {
    let api = MockApi::default().with_prefix("juno");
    for text in [CREATOR_JUNO.to_string(), CREATOR_JUNO.to_uppercase()] {
        let canonical = api.canonical_address(&text).0.unwrap();
        assert_eq!(api.human_address(&canonical).0, Ok(CREATOR_JUNO.to_string()));
        // taken are the texts without upper case
        assert_eq!(api.addr_validate(&text).is_ok(), text == text.to_lowercase());
    }
}

#[test]
fn addresses_begin_with_the_prefix_and_a_1() {
    for (prefix, start) in [("juno", "juno1"), ("JUNO", "juno1"), ("a1b", "a1b1"), ("7", "71")] {
        let text = MockApi::default().with_prefix(prefix).human_address(&CREATOR).0.unwrap();
        assert!(text.starts_with(start), "{text}");
        assert_eq!(text, text.to_lowercase());
    }
}
