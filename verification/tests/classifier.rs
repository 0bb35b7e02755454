use commandbar_core::clipboard_history::classifier::{
    classify, classify_with, count_closed_lines, inspect, looks_like_code, Findings,
};
use commandbar_core::clipboard_history::entry::ContentType;

fn cs(s: &str) -> Vec<char> {
    s.chars().collect()
}

fn nothing_found() -> Findings {
    Findings {
        link: false,
        email: false,
        phone: false,
        color: false,
        number: false,
        path: false,
        json: false,
    }
}

#[test]
fn classifies_links() {
    assert_eq!(classify("https://example.com/x"), ContentType::Link);
    assert_eq!(classify("http://example.com"), ContentType::Link);
    assert_eq!(classify("HTTPS://EXAMPLE.COM/Path"), ContentType::Link);
    assert_eq!(classify("  https://example.com/x \n"), ContentType::Link);
    assert_eq!(classify("https://"), ContentType::Text);
    assert_eq!(classify("https://a b"), ContentType::Text);
    assert_eq!(classify("see https://example.com"), ContentType::Text);
}

#[test]
fn classifies_emails() {
    assert_eq!(classify("a@b.co"), ContentType::Email);
    assert_eq!(classify("First.Last+tag@Example-Mail.ORG"), ContentType::Email);
    assert_eq!(classify("a@b.c"), ContentType::Text);
    assert_eq!(classify("a@b"), ContentType::Text);
    assert_eq!(classify("a b@c.de"), ContentType::Text);
}

#[test]
fn classifies_phone_numbers() {
    assert_eq!(classify("+1 (555) 123-4567"), ContentType::Phone);
    assert_eq!(classify("555.123.4567"), ContentType::Phone);
    assert_eq!(classify("1234567"), ContentType::Phone);
    assert_eq!(classify("123456"), ContentType::Number);
    assert_eq!(classify("123456789012345678901"), ContentType::Number);
}

#[test]
fn classifies_colors() {
    assert_eq!(classify("#fff"), ContentType::Color);
    assert_eq!(classify("#aabbcc"), ContentType::Color);
    assert_eq!(classify("#aabbccdd"), ContentType::Color);
    assert_eq!(classify("#AABBCC"), ContentType::Color);
    assert_eq!(classify("#ffff"), ContentType::Text);
    assert_eq!(classify("#ggg"), ContentType::Text);
    assert_eq!(classify("#aabbccdde"), ContentType::Text);
}

#[test]
fn classifies_numbers() {
    assert_eq!(classify("-12,345.67"), ContentType::Number);
    assert_eq!(classify("42"), ContentType::Number);
    assert_eq!(classify("3.14"), ContentType::Number);
    assert_eq!(classify("7."), ContentType::Number);
    assert_eq!(classify("-"), ContentType::Text);
    assert_eq!(classify("1.2.3"), ContentType::Text);
    assert_eq!(classify(".5"), ContentType::Text);
}

#[test]
fn classifies_paths() {
    assert_eq!(classify("C:\\Users\\x"), ContentType::Path);
    assert_eq!(classify("/usr/bin"), ContentType::Path);
    assert_eq!(classify("\\\\server\\share"), ContentType::Path);
    assert_eq!(classify("~/notes.txt"), ContentType::Path);
    assert_eq!(classify("/with\0nul"), ContentType::Text);
    assert_eq!(classify("relative/path"), ContentType::Text);
}

#[test]
fn classifies_json() {
    assert_eq!(classify("{\"a\":1}"), ContentType::Json);
    assert_eq!(classify("[1, 2, 3]"), ContentType::Json);
    assert_eq!(classify("{\n  \"a\": [true, null]\n}"), ContentType::Json);
    assert_eq!(classify("{not json}"), ContentType::Text);
    assert_eq!(classify("{\"a\":1"), ContentType::Text);
    assert_eq!(classify("{"), ContentType::Text);
}

#[test]
fn classifies_code() {
    assert_eq!(
        classify("function foo() {\n  let x = 1;\n  return x;\n}"),
        ContentType::Code
    );
    assert_eq!(classify("pub fn area() -> u32"), ContentType::Code);
    assert_eq!(classify("{ a();\n b();\n}"), ContentType::Code);
    assert_eq!(classify("{ a();\n b(); }"), ContentType::Text);
    assert_eq!(classify("a();\nb();"), ContentType::Text);
    assert_eq!(classify("fn alone"), ContentType::Text);
}

#[test]
fn classifies_plain_text() {
    assert_eq!(classify("hello world"), ContentType::Text);
    assert_eq!(classify(""), ContentType::Text);
    assert_eq!(classify("   "), ContentType::Text);
}

#[test]
fn single_line_rules_do_not_apply_to_several_lines() {
    assert_eq!(classify("https://example.com\nhttps://example.org"), ContentType::Text);
    assert_eq!(classify("12\n34"), ContentType::Text);
    assert_eq!(classify("[1,\n2]"), ContentType::Json);
}

#[test]
fn earlier_rules_win() {
    let all = Findings {
        link: true,
        email: true,
        phone: true,
        color: true,
        number: true,
        path: true,
        json: true,
    };
    assert_eq!(classify_with(&cs("{x}"), all), ContentType::Link);
    assert_eq!(classify_with(&cs("{x}"), Findings { link: false, ..all }), ContentType::Email);
    assert_eq!(
        classify_with(&cs("{x}"), Findings { link: false, email: false, ..all }),
        ContentType::Phone
    );
    assert_eq!(
        classify_with(&cs("{x}"), Findings { color: true, number: true, path: true, json: true, ..nothing_found() }),
        ContentType::Color
    );
    assert_eq!(
        classify_with(&cs("{x}"), Findings { number: true, path: true, json: true, ..nothing_found() }),
        ContentType::Number
    );
    assert_eq!(
        classify_with(&cs("{x}"), Findings { path: true, json: true, ..nothing_found() }),
        ContentType::Path
    );
    assert_eq!(
        classify_with(&cs("{x}"), Findings { json: true, ..nothing_found() }),
        ContentType::Json
    );
    assert_eq!(classify_with(&cs("{x}"), nothing_found()), ContentType::Text);
}

#[test]
fn findings_need_their_conditions() {
    let all = Findings {
        link: true,
        email: true,
        phone: true,
        color: true,
        number: true,
        path: true,
        json: true,
    };
    assert_eq!(classify_with(&cs("a\nb"), all), ContentType::Text);
    assert_eq!(classify_with(&cs("[a\nb]"), all), ContentType::Json);
    assert_eq!(
        classify_with(&cs("plain"), Findings { json: true, ..nothing_found() }),
        ContentType::Text
    );
    assert_eq!(
        classify_with(&cs("{]"), Findings { json: true, ..nothing_found() }),
        ContentType::Text
    );
}

#[test]
fn inspect_reports_each_check() {
    let found = inspect("https://example.com");
    assert_eq!(found, Findings { link: true, ..nothing_found() });
    let found = inspect("[1]");
    assert_eq!(found, Findings { json: true, ..nothing_found() });
    let found = inspect("12345678");
    assert_eq!(
        found,
        Findings { phone: true, number: true, json: true, ..nothing_found() }
    );
    assert_eq!(inspect("plain words"), nothing_found());
}

#[test]
fn code_needs_two_indicators_or_braces_and_statements() {
    assert!(looks_like_code(&cs("import x\nexport y")));
    assert!(looks_like_code(&cs("a && b || c")));
    assert!(!looks_like_code(&cs("a && b")));
    assert!(!looks_like_code(&cs("fn fn fn ")));
    assert!(looks_like_code(&cs("{\n x;  \n y;\t\n}")));
    assert!(!looks_like_code(&cs("{\n x;\n y\n}")));
    assert!(!looks_like_code(&cs("x;\ny;\n}")));
    assert!(looks_like_code(&cs("using namespace std; #include <x>")));
}

#[test]
fn counts_lines_that_end_in_a_semicolon() {
    assert_eq!(count_closed_lines(&cs("")), 0);
    assert_eq!(count_closed_lines(&cs("a;")), 1);
    assert_eq!(count_closed_lines(&cs("a; b")), 0);
    assert_eq!(count_closed_lines(&cs("a;;")), 1);
    assert_eq!(count_closed_lines(&cs("a; \t\r\nb;\n\nc")), 2);
    assert_eq!(count_closed_lines(&cs(";\n;\n;")), 3);
    assert_eq!(count_closed_lines(&cs("a;\u{000B}")), 1);
}
