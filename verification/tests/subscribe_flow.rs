use zero2prod::form::{decode_component, parse_form};
use zero2prod::health_check;
use zero2prod::subscribe::{completion_status, decide_subscribe, new_subscription, StoreError, Subscription, SubscribeDecision};

fn persisted_row(decision: SubscribeDecision) -> Subscription {
    match decision {
        SubscribeDecision::Persist(row) => row,
        SubscribeDecision::Reject(status) => panic!("rejected with {}", status),
    }
}

#[test]
fn should_pass_health_check() {
    assert_eq!(200, health_check());
}

#[test]
fn subscribe_must_give_200_response() {
    let body = "name=kuldeepxyx&email=kuldeep@xyz.com";

    let decision = decide_subscribe(body.as_bytes());
    let row = persisted_row(decision);
    assert_eq!("kuldeep@xyz.com", &row.email);
    assert_eq!("kuldeepxyx", &row.name);

    assert_eq!(200, completion_status(&Ok(())));
}

#[test]
fn subscribe_must_give_400_response() {
    let test_cases = vec![
        ("email=kuldeep@xyz.com", "Missing name parameter"),
        ("name=Kuldeep", "Missing email parameter"),
        ("", "Invalid request name & email both are required"),
    ];

    for (body, error_msg) in test_cases {
        match decide_subscribe(body.as_bytes()) {
            SubscribeDecision::Reject(status) => assert_eq!(400, status, "{}", error_msg),
            SubscribeDecision::Persist(_) => panic!("{}", error_msg),
        }
    }
}

#[test]
fn parse_form_accepts_both_field_orders() {
    let f = parse_form(b"name=Ada&email=ada@example.org").expect("well-formed body");
    assert_eq!("Ada", &f.name);
    assert_eq!("ada@example.org", &f.email);

    let g = parse_form(b"email=ada@example.org&name=Ada").expect("well-formed body");
    assert_eq!("Ada", &g.name);
    assert_eq!("ada@example.org", &g.email);
}

#[test]
fn parse_form_rejects_malformed_bodies() {
    assert!(parse_form(b"").is_none());
    assert!(parse_form(b"name=Kuldeep").is_none());
    assert!(parse_form(b"email=kuldeep@xyz.com").is_none());
    assert!(parse_form(b"name=a&email=b&extra=c").is_none());
    assert!(parse_form(b"name=a&name=b").is_none());
    assert!(parse_form(b"user=a&email=b").is_none());
}

#[test]
fn parse_form_skips_empty_segments() {
    let f = parse_form(b"name=a&email=b&").expect("a trailing separator is no field");
    assert_eq!("a", &f.name);
    assert_eq!("b", &f.email);

    let g = parse_form(b"&name=a&&email=b&").expect("doubled separators are no fields");
    assert_eq!("a", &g.name);
    assert_eq!("b", &g.email);

    assert!(parse_form(b"&&").is_none());
}

#[test]
fn parse_form_keeps_values_verbatim() {
    let f = parse_form(b"name=&email=").expect("present but empty fields decode");
    assert_eq!("", &f.name);
    assert_eq!("", &f.email);

    let g = parse_form(b"name=le%20guin&email=ursula_le_guin%40gmail.com")
        .expect("escaped body decodes");
    assert_eq!("le guin", &g.name);
    assert_eq!("ursula_le_guin@gmail.com", &g.email);

    let h = parse_form(b"name=Ada+Lovelace&email=ada@example.org").expect("plus decodes to space");
    assert_eq!("Ada Lovelace", &h.name);

    let i = parse_form(b"name=100%&email=a%zz@b").expect("stray escapes stay verbatim");
    assert_eq!("100%", &i.name);
    assert_eq!("a%zz@b", &i.email);
}

#[test]
fn parse_form_decodes_beyond_ascii() {
    let f = parse_form(b"name=Jos%C3%A9&email=jose@example.org").expect("escaped UTF-8 decodes");
    assert_eq!("Jos\u{e9}", &f.name);

    let g = parse_form(b"name=%FF&email=a@b").expect("bytes that are not UTF-8 decode lossily");
    assert_eq!("\u{fffd}", &g.name);
}

#[test]
fn decode_component_handles_escapes() {
    assert_eq!(b"a b".to_vec(), decode_component(b"a+b"));
    assert_eq!(b"a@b".to_vec(), decode_component(b"a%40b"));
    assert_eq!(Vec::<u8>::new(), decode_component(b""));
    assert_eq!(vec![0xC3u8, 0xA9u8], decode_component(b"%C3%A9"));
    assert_eq!(b"%".to_vec(), decode_component(b"%"));
    assert_eq!(b"%4".to_vec(), decode_component(b"%4"));
    assert_eq!(b"%gg".to_vec(), decode_component(b"%gg"));
    assert_eq!(b"100%".to_vec(), decode_component(b"100%"));
}

#[test]
fn persisted_fields_are_kept_verbatim() {
    let f = parse_form(b"name=kuldeepxyx&email=kuldeep@xyz.com").expect("well-formed body");
    let row = new_subscription(f);
    assert_eq!("kuldeepxyx", &row.name);
    assert_eq!("kuldeep@xyz.com", &row.email);
}

#[test]
fn resubmission_draws_a_fresh_identifier() {
    let body = b"name=kuldeepxyx&email=kuldeep@xyz.com";
    let first = persisted_row(decide_subscribe(body));
    let second = persisted_row(decide_subscribe(body));
    assert_eq!(first.name, second.name);
    assert_eq!(first.email, second.email);
    assert_ne!(first.id, second.id);
}

#[test]
fn store_failure_maps_to_opaque_500() {
    let failure: Result<(), StoreError> = Err(StoreError {
        detail: String::from("connection reset"),
    });
    assert_eq!(500, completion_status(&failure));
}
