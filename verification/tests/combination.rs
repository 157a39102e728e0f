use std::rc::Rc;

use boxing_trainer::combination::{
    count_message, io_error_message, parse_combination, parse_data, parse_error_message,
    parse_yes_no, unknown_message, Body, Combination, CombinationError, Defense, Distance, Faint,
};

fn record(line: &str) -> Combination {
    parse_combination(line).unwrap().as_ref().clone()
}

fn message(line: &str) -> String {
    match parse_combination(line) {
        Err(CombinationError::ParseError(message)) => message,
        other => panic!("{:?}", other),
    }
}

fn descriptions(data: &[Rc<Combination>]) -> Vec<String> {
    data.iter().map(|c| c.description.clone()).collect()
}

#[test]
fn test_parse_combination() {
    assert_eq!(
        parse_combination("1-1-2-step_back-2; Long;  Yes;  No;  No; https://example.com")
            .unwrap()
            .as_ref(),
        &Combination {
            description: "1-1-2-step_back-2".to_owned(),
            distance: Distance::Long,
            defense: Defense::Yes,
            faint: Faint::No,
            body: Body::No,
            url: Some("https://example.com".to_owned()),
        }
    );
}

#[test]
fn test_parse_error_five_elements() {
    assert_eq!(
        parse_combination("1-1-2-step_back-2; Long;  Yes")
            .unwrap_err()
            .to_string(),
        "Parse error: Expect five elements delimited by ; in \"1-1-2-step_back-2; Long;  Yes\""
            .to_owned()
    );
}

#[test]
fn test_parse_error_distance() {
    assert_eq!(
        parse_combination("1-1-2-step_back-2; XXX;  Yes;  No;  No;")
            .unwrap_err()
            .to_string(),
        "Parse error: Unknown distance \"XXX\" in \"1-1-2-step_back-2; XXX;  Yes;  No;  No;\""
            .to_owned()
    );
}

#[test]
fn test_parse_error_defence() {
    assert_eq!(
        parse_combination("1-1-2-step_back-2; Long;  XXX;  No;  No;")
            .unwrap_err()
            .to_string(),
        "Parse error: Unknown defense \"  XXX\" in \"1-1-2-step_back-2; Long;  XXX;  No;  No;\""
            .to_owned()
    );
}

#[test]
fn test_parse_error_faint() {
    assert_eq!(
        parse_combination("1-1-2-step_back-2; Long;  Yes;  XXX;  No;")
            .unwrap_err()
            .to_string(),
        "Parse error: Unknown faint \"  XXX\" in \"1-1-2-step_back-2; Long;  Yes;  XXX;  No;\""
            .to_owned()
    );
}

#[test]
fn test_parse_error_body() {
    assert_eq!(
        parse_combination("1-1-2-step_back-2; Long;  Yes;  No;  XXX;")
            .unwrap_err()
            .to_string(),
        "Parse error: Unknown body \"  XXX\" in \"1-1-2-step_back-2; Long;  Yes;  No;  XXX;\""
            .to_owned()
    );
}

#[test]
fn parses_a_line_of_five_fields() {
    assert_eq!(
        parse_combination("A; Long; Yes; No; No").unwrap().as_ref(),
        &Combination {
            description: "A".to_owned(),
            distance: Distance::Long,
            defense: Defense::Yes,
            faint: Faint::No,
            body: Body::No,
            url: None,
        }
    );
}

#[test]
fn new_keeps_every_part() {
    let c = Combination::new(
        "d".to_owned(),
        Distance::Short,
        Defense::No,
        Faint::Yes,
        Body::Yes,
        Some("u".to_owned()),
    );
    assert_eq!(
        c,
        Combination {
            description: "d".to_owned(),
            distance: Distance::Short,
            defense: Defense::No,
            faint: Faint::Yes,
            body: Body::Yes,
            url: Some("u".to_owned()),
        }
    );
}

#[test]
fn every_facet_is_read() {
    let c = record(" jab - cross ;short;no;yes;yes");
    assert_eq!(c.description, "jab - cross");
    assert_eq!(c.distance, Distance::Short);
    assert_eq!(c.defense, Defense::No);
    assert_eq!(c.faint, Faint::Yes);
    assert_eq!(c.body, Body::Yes);
    assert_eq!(c.url, None);
    let c = record(";long;yes;no;no;");
    assert_eq!(c.description, "");
    assert_eq!(c.defense, Defense::Yes);
    assert_eq!(c.faint, Faint::No);
    assert_eq!(c.body, Body::No);
    assert_eq!(c.url, None);
}

#[test]
fn words_are_read_in_any_case() {
    for word in ["LONG", "long", "Long", "lOnG"] {
        assert_eq!(record(&format!("a;{};yes;no;no", word)).distance, Distance::Long);
    }
    for word in ["SHORT", "short", "Short"] {
        assert_eq!(record(&format!("a; {} ;yes;no;no", word)).distance, Distance::Short);
    }
    for word in ["YES", "yes", "Yes", " yEs\t"] {
        let c = record(&format!("a;long;{};{};{}", word, word, word));
        assert_eq!((c.defense, c.faint, c.body), (Defense::Yes, Faint::Yes, Body::Yes));
        assert!(matches!(parse_yes_no(word, 1, 2), Some(1)));
    }
    for word in ["NO", "no", "No", "  nO "] {
        let c = record(&format!("a;long;{};{};{}", word, word, word));
        assert_eq!((c.defense, c.faint, c.body), (Defense::No, Faint::No, Body::No));
        assert!(matches!(parse_yes_no(word, 1, 2), Some(2)));
    }
    for word in ["", "y", "yes please", "n o", "ja", "long"] {
        assert!(parse_yes_no(word, 1, 2).is_none());
    }
}

#[test]
fn link_is_trimmed_and_may_be_missing() {
    assert_eq!(record("a;long;yes;no;no").url, None);
    assert_eq!(record("a;long;yes;no;no;").url, None);
    assert_eq!(record("a;long;yes;no;no; ").url, Some(String::new()));
    assert_eq!(record("a;long;yes;no;no;  x y  ").url, Some("x y".to_owned()));
}

#[test]
fn wrong_field_counts_are_reported_with_the_line() {
    for line in ["", "a", "a;long;yes;no", "a;long;yes;no;no;u;v", ";;;;;;"] {
        assert_eq!(
            message(line),
            format!("Expect five elements delimited by ; in {:?}", line)
        );
    }
}

#[test]
fn first_fault_is_the_one_reported() {
    assert_eq!(
        message("a; zzz ;maybe;perhaps;x"),
        "Unknown distance \"zzz\" in \"a; zzz ;maybe;perhaps;x\""
    );
    assert_eq!(
        message("a;long; maybe ;perhaps;x"),
        "Unknown defense \" maybe \" in \"a;long; maybe ;perhaps;x\""
    );
    assert_eq!(
        message("a;long;yes;perhaps;x"),
        "Unknown faint \"perhaps\" in \"a;long;yes;perhaps;x\""
    );
    assert_eq!(message("a;long;yes;no;"), "Unknown body \"\" in \"a;long;yes;no;\"");
}

#[test]
fn quoted_text_is_escaped() {
    assert_eq!(
        message("say \"hi\"\\;l\tng;yes;no;no"),
        format!(
            "Unknown distance {:?} in {:?}",
            "l\tng", "say \"hi\"\\;l\tng;yes;no;no"
        )
    );
    assert!(message("say \"hi\";x;yes;no;no").ends_with("in \"say \\\"hi\\\";x;yes;no;no\""));
}

#[test]
fn messages_are_put_together_from_their_parts() {
    assert_eq!(count_message("<line>"), "Expect five elements delimited by ; in <line>");
    assert_eq!(
        unknown_message("faint", "<field>", "<line>"),
        "Unknown faint <field> in <line>"
    );
    assert_eq!(parse_error_message("m"), "Parse error: m");
    assert_eq!(io_error_message("c"), "I/O error: c");
}

#[test]
fn errors_read_as_their_kind_and_cause() {
    let error = CombinationError::ParseError("wrong".to_owned());
    assert_eq!(error.to_string(), "Parse error: wrong");
    assert!(error.source().is_none());
    let error = CombinationError::from(std::io::Error::new(std::io::ErrorKind::NotFound, "gone"));
    assert_eq!(error.to_string(), "I/O error: gone");
    assert_eq!(error.source().unwrap().kind(), std::io::ErrorKind::NotFound);
    assert!(matches!(error, CombinationError::IoError(_)));
}

#[test]
fn parse_data_skips_blank_and_comment_lines() {
    let data = parse_data("# header\n\n  a; short; no; yes; no\r\n\t# note\nb;LONG;YES;NO;YES;x\n")
        .unwrap();
    assert_eq!(data.len(), 2);
    assert_eq!(data[0].description, "a");
    assert_eq!(data[0].distance, Distance::Short);
    assert_eq!(data[1].url, Some("x".to_owned()));
    assert!(parse_data("").unwrap().is_empty());
    assert!(parse_data("\n\n  \n#a;b\n").unwrap().is_empty());
    assert_eq!(
        descriptions(&parse_data("c;long;no;no;no\na;long;no;no;no\r\nb;long;no;no;no").unwrap()),
        vec!["c".to_owned(), "a".to_owned(), "b".to_owned()]
    );
}

#[test]
fn parse_data_stops_at_the_first_malformed_line() {
    match parse_data("a;long;yes;no;no\n  b;long  \nc;zzz;yes;no;no") {
        Err(CombinationError::ParseError(message)) => {
            assert_eq!(message, "Expect five elements delimited by ; in \"b;long\"")
        }
        other => panic!("{:?}", other),
    }
    match parse_data("a;long;yes;no;no\n# b;long\nc;zzz;yes;no;no\nd") {
        Err(error) => assert_eq!(
            error.to_string(),
            "Parse error: Unknown distance \"zzz\" in \"c;zzz;yes;no;no\""
        ),
        other => panic!("{:?}", other),
    }
}
