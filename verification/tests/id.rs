use d5::id::{basic_token, Id, Malformed};
use std::str::FromStr;

#[test]
fn encode_id() {
    let id = Id::new("derp", "flerp");
    println!("{:?}", &id);
    assert_eq!(format!("{}", id.basic()), "Basic ZGVycDpmbGVycA==");
}

#[test]
fn convert_id() {
    let id_try = Id::try_from("derp:flerp").unwrap();
    let id_exp = Id::new("derp", "flerp");
    assert_eq!(id_try, id_exp);
}

#[test]
fn convert_id_err() {
    assert!(Id::try_from("").is_err());
    assert!(Id::try_from("derpflerp").is_err());
    assert!(Id::try_from(":derpflerp:").is_err());
    assert!(Id::try_from(":derpflerp").is_ok());
    assert!(Id::try_from("derpflerp:").is_ok());

    let id = Id::try_from(":derpflerp").unwrap();
    assert!(id.user().is_empty() && !id.password().is_empty());

    let id = Id::try_from("derpflerp:").unwrap();
    assert!(!id.user().is_empty() && id.password().is_empty());
}

#[test]
fn parse_splits_at_the_single_colon() {
    let id = Id::try_from(":a").unwrap();
    assert_eq!(id.user(), "");
    assert_eq!(id.password(), "a");
    let id = Id::try_from("a:").unwrap();
    assert_eq!(id.user(), "a");
    assert_eq!(id.password(), "");
    let id = Id::try_from(":").unwrap();
    assert_eq!(id.user(), "");
    assert_eq!(id.password(), "");
    assert_eq!(Id::try_from("a"), Err(Malformed));
    assert_eq!(Id::try_from(""), Err(Malformed));
    assert_eq!(Id::try_from(":a:"), Err(Malformed));
    assert_eq!(Id::try_from("a:b:c"), Err(Malformed));
}

#[test]
fn parse_trims_the_text_not_its_parts() {
    let id = Id::try_from("  derp:flerp\n").unwrap();
    assert_eq!(id.user(), "derp");
    assert_eq!(id.password(), "flerp");
    let id = Id::try_from("\u{3000}a b : c d\u{85}").unwrap();
    assert_eq!(id.user(), "a b ");
    assert_eq!(id.password(), " c d");
    assert_eq!(Id::try_from("   "), Err(Malformed));
}

#[test]
fn parse_counts_characters_not_bytes() {
    let id = Id::try_from("\u{e9}t\u{e9}:\u{1f600}x").unwrap();
    assert_eq!(id.user(), "\u{e9}t\u{e9}");
    assert_eq!(id.password(), "\u{1f600}x");
    assert_eq!(id.encoded(), "w6l0w6k68J+YgHg=");
}

#[test]
fn new_keeps_both_parts_and_encodes_them() {
    let id = Id::new("derp", "flerp");
    assert_eq!(id.user(), "derp");
    assert_eq!(id.password(), "flerp");
    assert_eq!(id.encoded(), "ZGVycDpmbGVycA==");
    assert_eq!(id.to_string(), "derp:flerp");
    let empty = Id::new("", "");
    assert_eq!(empty.encoded(), "Og==");
    assert_eq!(empty.basic(), "Basic Og==");
    assert_eq!(empty.to_string(), ":");
    let colon = Id::new("a:b", "c");
    assert_eq!(colon.user(), "a:b");
    assert_eq!(colon.to_string(), "a:b:c");
}

#[test]
fn identity_of_usual_size_can_be_encoded() {
    assert!(Id::new("derp", "flerp").encodable());
    assert!(Id::new("", "").encodable());
    assert!(Id::try_from("a:b").unwrap().encodable());
    assert!(Id::from_basic("Basic Og==").unwrap().encodable());
    let long = "x".repeat(100_000);
    let id = Id::new(&long, &long);
    assert!(id.encodable());
    assert_eq!(id.encoded().len(), (2 * 100_000 + 1 + 2) / 3 * 4);
    assert_eq!(Id::from_basic(&id.basic()), Ok(id));
}

#[test]
fn identities_are_equal_where_user_and_password_are() {
    assert_eq!(Id::new("a", "b"), Id::new("a", "b"));
    assert_ne!(Id::new("a", "b"), Id::new("a", "c"));
    assert_ne!(Id::new("a", "b"), Id::new("c", "b"));
    assert_ne!(Id::new("a:b", "c"), Id::new("a", "b:c"));
    let id = Id::new("derp", "flerp");
    let copy = id.clone();
    assert_eq!(id, copy);
    assert_eq!(copy.encoded(), "ZGVycDpmbGVycA==");
}

#[test]
fn token_is_the_header_without_scheme_and_white_space() {
    assert_eq!(basic_token("Basic ZGVycDpmbGVycA=="), "ZGVycDpmbGVycA==");
    assert_eq!(basic_token("  Basic   ZGVycDpmbGVycA==  \n"), "ZGVycDpmbGVycA==");
    assert_eq!(basic_token("ZGVycDpmbGVycA=="), "ZGVycDpmbGVycA==");
    assert_eq!(basic_token("Basic Basic Basic abc"), "Basic Basic abc");
    assert_eq!(basic_token("Basic Basic ZGVycDpmbGVycA=="), "Basic ZGVycDpmbGVycA==");
    assert_eq!(basic_token("Basic  Basic abc"), "Basic abc");
    assert_eq!(basic_token("Basic Basic "), "Basic");
    assert_eq!(basic_token("basic abc"), "basic abc");
    assert_eq!(basic_token("Basic"), "Basic");
    assert_eq!(basic_token("Basic "), "Basic");
    assert_eq!(basic_token(""), "");
    assert_eq!(basic_token("Basic \u{e9} "), "\u{e9}");
}

#[test]
fn token_is_what_std_leaves_after_one_strip() {
    let headers = [
        "Basic ZGVycDpmbGVycA==",
        " \t Basic Basic  x y  \r\n",
        "BasicBasic ",
        "Basic Basi",
        "\u{a0}Basic \u{2003}abc\u{205f}",
        "Basic Basic ",
    ];
    for header in headers.iter() {
        let outer = header.trim();
        let expected = outer.strip_prefix("Basic ").unwrap_or(outer).trim();
        assert_eq!(basic_token(header), expected);
    }
}

#[test]
fn header_is_decoded() {
    let id = Id::from_basic("Basic ZGVycDpmbGVycA==").unwrap();
    assert_eq!(id, Id::new("derp", "flerp"));
    assert_eq!(id.user(), "derp");
    assert_eq!(id.password(), "flerp");
    let id = Id::from_basic("  ZGVycDpmbGVycA==\n").unwrap();
    assert_eq!(id, Id::new("derp", "flerp"));
    let id = Id::from_basic("Basic Og==").unwrap();
    assert_eq!(id, Id::new("", ""));
    let id = Id::from_basic("Basic IGRlcnAgOiBmbGVycCAg").unwrap();
    assert_eq!(id.user(), " derp ");
    assert_eq!(id.password(), " flerp  ");
}

#[test]
fn header_that_is_not_base64_is_refused() {
    assert_eq!(Id::from_basic("Basic not base64!"), Err(Malformed));
    assert_eq!(Id::from_basic("Basic ZGVycDpmbGVycA=x"), Err(Malformed));
    assert_eq!(Id::from_basic("Basic ZGVycDpmbGVycA==="), Err(Malformed));
    assert_eq!(Id::from_basic("Basic Z"), Err(Malformed));
    assert_eq!(Id::from_basic("Basic ZGVy cDpmbGVycA=="), Err(Malformed));
    assert_eq!(Id::from_basic("basic ZGVycDpmbGVycA=="), Err(Malformed));
    assert_eq!(Id::from_basic("Basic Basic ZGVycDpmbGVycA=="), Err(Malformed));
    assert_eq!(Id::from_basic("Basic Basic Og=="), Err(Malformed));
}

#[test]
fn header_without_a_single_colon_is_refused() {
    assert_eq!(Id::from_basic("Basic ZGVycGZsZXJw"), Err(Malformed));
    assert_eq!(Id::from_basic("Basic OmRlcnBmbGVycDo="), Err(Malformed));
    assert_eq!(Id::from_basic("Basic "), Err(Malformed));
    assert_eq!(Id::from_basic(""), Err(Malformed));
}

#[test]
fn bytes_that_are_no_text_are_read_with_replacements() {
    let id = Id::from_basic("Basic YTr/").unwrap();
    assert_eq!(id.user(), "a");
    assert_eq!(id.password(), "\u{fffd}");
    let id = Id::from_basic("Basic w6k6w6k=").unwrap();
    assert_eq!(id.user(), "\u{e9}");
    assert_eq!(id.password(), "\u{e9}");
}

#[test]
fn decoding_undoes_encoding() {
    let pairs = [
        ("derp", "flerp"),
        ("", ""),
        ("", "a"),
        ("a", ""),
        ("user name", "pass word"),
        ("a ", " b"),
        (" a", "b "),
        ("  ", "\t"),
        ("\n", ""),
        ("", "\u{3000}"),
        ("Basic ", "Basic "),
        ("\u{e9}t\u{e9}", "\u{1f600}"),
        ("Basic ", "Basic"),
        ("x", "=="),
    ];
    for (user, password) in pairs.iter() {
        let id = Id::new(user, password);
        let back = Id::from_basic(&id.basic()).unwrap();
        assert_eq!(back, id);
        assert_eq!(back.user(), *user);
        assert_eq!(back.password(), *password);
        assert_eq!(back.encoded(), id.encoded());
    }
}

#[test]
fn white_space_at_the_ends_comes_back() {
    let id = Id::new(" a", "b ");
    assert_eq!(id.basic(), "Basic IGE6YiA=");
    let back = Id::from_basic(&id.basic()).unwrap();
    assert_eq!(back.user(), " a");
    assert_eq!(back.password(), "b ");
    assert_eq!(back, id);
    assert_eq!(back.encoded(), id.encoded());
}

#[test]
fn decoding_does_not_undo_a_pair_with_a_colon() {
    let colon = Id::new("a:b", "c");
    assert_eq!(Id::from_basic(&colon.basic()), Err(Malformed));
    let colon = Id::new("a", ":");
    assert_eq!(Id::from_basic(&colon.basic()), Err(Malformed));
}

#[test]
fn text_is_split_as_it_is() {
    let id = Id::from_plain(" a:b ").unwrap();
    assert_eq!(id.user(), " a");
    assert_eq!(id.password(), "b ");
    let id = Id::from_plain(":").unwrap();
    assert_eq!(id.user(), "");
    assert_eq!(id.password(), "");
    let id = Id::from_plain(" : ").unwrap();
    assert_eq!(id.user(), " ");
    assert_eq!(id.password(), " ");
    assert_eq!(Id::from_plain(""), Err(Malformed));
    assert_eq!(Id::from_plain("  "), Err(Malformed));
    assert_eq!(Id::from_plain("a"), Err(Malformed));
    assert_eq!(Id::from_plain(":a:"), Err(Malformed));
    assert_eq!(Id::from_plain("derp:flerp"), Ok(Id::new("derp", "flerp")));
    assert_ne!(Id::from_plain(" a:b "), Id::try_from(" a:b "));
}

#[test]
fn encoding_undoes_decoding() {
    let headers = ["Basic ZGVycDpmbGVycA==", " Og== ", "Basic  YTr/", "IGRlcnAgOiBmbGVycCAg"];
    for header in headers.iter() {
        let id = Id::from_basic(header).unwrap();
        assert_eq!(Id::from_basic(&id.basic()), Ok(id));
    }
}

#[test]
fn from_str_reads_a_header() {
    assert_eq!(Id::from_str("Basic ZGVycDpmbGVycA=="), Ok(Id::new("derp", "flerp")));
    assert_eq!(Id::from_str("derp:flerp"), Err(Malformed));
    let parsed: Result<Id, Malformed> = "Basic Og==".parse();
    assert_eq!(parsed, Ok(Id::new("", "")));
}
