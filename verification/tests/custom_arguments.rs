use geam_macros::custom_arguments::parse_custom_arguments;
use proc_macro2::TokenStream;

fn tokens(text: &str) -> TokenStream {
    text.parse().expect("test tokens should lex")
}

#[test]
fn arguments_accept_only_one_generated_input_name() {
    let output_only = parse_custom_arguments(tokens(""))
        .expect("output-only custom declaration should parse");
    assert!(output_only.input.is_none());

    let directional = parse_custom_arguments(tokens("input = StatusInput"))
        .expect("generated custom input name should parse");
    assert_eq!(directional.input.expect("input should exist"), "StatusInput");

    let cases = [
        ("input = FirstInput, input = SecondInput", "duplicate custom argument `input`"),
        ("other = StatusInput", "unknown custom argument `other`"),
        ("= StatusInput", "expected identifier"),
        ("input StatusInput", "expected `=`"),
        ("input = \"StatusInput\"", "expected identifier"),
        ("input = StatusInput other = OtherInput", "expected `,`"),
    ];

    for (arguments, expected) in cases {
        assert_eq!(
            parse_custom_arguments(tokens(arguments))
                .err()
                .expect("custom arguments should be rejected")
                .message(),
            expected,
        );
    }
}

#[test]
fn arguments_report_end_of_input_keywords_and_trailing_commas() {
    assert_eq!(
        parse_custom_arguments(tokens("input = StatusInput,"))
            .expect("a trailing comma is accepted")
            .input
            .expect("input should exist"),
        "StatusInput",
    );
    assert_eq!(
        parse_custom_arguments(tokens("input ="))
            .err()
            .expect("a missing value is rejected")
            .message(),
        "unexpected end of input, expected identifier",
    );
    assert_eq!(
        parse_custom_arguments(tokens("input"))
            .err()
            .expect("a missing `=` is rejected")
            .message(),
        "expected `=`",
    );
    assert_eq!(
        parse_custom_arguments(tokens("input = type"))
            .err()
            .expect("keywords are not names")
            .message(),
        "expected identifier, found keyword `type`",
    );
    assert_eq!(
        parse_custom_arguments(tokens("input = (StatusInput)"))
            .err()
            .expect("groups are not names")
            .message(),
        "expected identifier",
    );
    assert_eq!(
        parse_custom_arguments(tokens("r#input = StatusInput"))
            .err()
            .expect("raw field names are not `input`")
            .message(),
        "unknown custom argument `r#input`",
    );
}

#[test]
fn arguments_read_names_through_invisible_groups() {
    let mut stream = tokens("input =");
    stream.extend([proc_macro2::TokenTree::Group(proc_macro2::Group::new(
        proc_macro2::Delimiter::None,
        tokens("StatusInput"),
    ))]);
    let arguments = parse_custom_arguments(stream).expect("a name inside an invisible group is a name");
    assert_eq!(arguments.input.as_deref(), Some("StatusInput"));

    assert_eq!(
        parse_custom_arguments(tokens("input = (StatusInput)")).err().unwrap().message(),
        "expected identifier",
    );
}

#[test]
fn punctuation_is_no_name() {
    for arguments in ["input = 'a", "'a = StatusInput", "input = ,"] {
        assert_eq!(
            parse_custom_arguments(tokens(arguments)).err().unwrap().message(),
            "expected identifier",
        );
    }
}
