use antlir::runner::{
    disabled_key, failure_message, indent_lines, is_disabled, render_report, report_xml,
    skipped_result, status_line, summarize, summary_line, xml_escape_text, TestResult,
};

fn result(target: &str, unit: Option<&str>, attempts: u32, passed: bool, ms: u64) -> TestResult {
    TestResult {
        target: target.to_string(),
        unit: unit.map(|u| u.to_string()),
        attempts,
        passed,
        duration_ms: ms,
        stdout: String::new(),
        stderr: String::new(),
        contacts: Vec::new(),
    }
}

#[test]
fn status_lines() {
    assert_eq!(status_line("//a:b", &result("//a:b", None, 1, true, 12)), "[PASS] //a:b (12 ms)\n");
    assert_eq!(
        status_line("//a:b", &result("//a:b", None, 3, true, 120)),
        "[PASS] //a:b (120 ms) (3 attempts needed)\n"
    );
    assert_eq!(status_line("//a:b", &result("//a:b", None, 0, false, 0)), "[SKIP] //a:b\n");
    assert_eq!(status_line("//a:b", &result("//a:b", None, 2, false, 5)), "[FAIL] //a:b (5 ms)\n");
}

#[test]
fn indenting_lines() {
    assert_eq!(indent_lines(""), "    \n");
    assert_eq!(indent_lines("a"), "    a\n");
    assert_eq!(indent_lines("a\nb"), "    a\n    b\n");
    assert_eq!(indent_lines("a\n"), "    a\n    \n");
}

#[test]
fn failure_messages() {
    let mut t = result("//a:b", Some("test_x"), 2, false, 5);
    t.stderr = "boom\nbang".to_string();
    assert_eq!(
        failure_message("//a:b#test_x", &t),
        "\nTest //a:b#test_x failed after 2 unsuccessful attempts:\n    boom\n    bang\n"
    );
    t.contacts = vec!["oncall@example.com".to_string(), "a \"b\"".to_string()];
    assert_eq!(
        failure_message("//a:b#test_x", &t),
        [
            "\nTest //a:b#test_x failed after 2 unsuccessful attempts:\n    boom\n    bang\n",
            "Please report this to [\"oncall@example.com\", \"a \\\"b\\\"\"]\n",
        ]
        .concat()
    );
}

#[test]
fn summary_counts_every_test_once() {
    let tests = vec![
        result("//a:pass", None, 1, true, 1),
        result("//a:skip", None, 0, false, 0),
        result("//a:fail", None, 1, false, 3),
        result("//a:pass2", None, 2, true, 4),
    ];
    let names: Vec<String> = tests.iter().map(|t| t.target.clone()).collect();
    let s = summarize(&tests, &names);
    assert_eq!(s.passed, 2);
    assert_eq!(s.skipped, 1);
    assert_eq!(
        s.errors,
        vec!["\nTest //a:fail failed after 1 unsuccessful attempts:\n    \n".to_string()]
    );
    assert_eq!(s.passed + s.skipped + s.errors.len(), tests.len());
    assert_eq!(
        summary_line(4, 2, 1, 1),
        "Out of 4 tests, 2 passed, 1 failed, 1 were skipped\n"
    );
}

#[test]
fn disabled_tests() {
    assert_eq!(disabled_key("//a:b".to_string(), "".to_string()), ("//a:b".to_string(), None));
    assert_eq!(
        disabled_key("//a:b".to_string(), "t".to_string()),
        ("//a:b".to_string(), Some("t".to_string()))
    );
    let disabled = vec![
        ("//a:b".to_string(), None),
        ("//a:c".to_string(), Some("t".to_string())),
    ];
    assert!(is_disabled(&disabled, &"//a:b".to_string(), &None));
    assert!(!is_disabled(&disabled, &"//a:b".to_string(), &Some("t".to_string())));
    assert!(is_disabled(&disabled, &"//a:c".to_string(), &Some("t".to_string())));
    assert!(!is_disabled(&disabled, &"//a:c".to_string(), &None));
    assert!(!is_disabled(&Vec::new(), &"//a:c".to_string(), &None));
}

#[test]
fn skipped_results() {
    let r = skipped_result("//a:b".to_string(), Some("t".to_string()), vec!["x".to_string()]);
    let mut expected = result("//a:b", Some("t"), 0, false, 0);
    expected.contacts = vec!["x".to_string()];
    assert_eq!(r, expected);
}

#[test]
fn escaping_xml_text() {
    assert_eq!(xml_escape_text("plain text".to_string()), "plain text");
    assert_eq!(xml_escape_text("a & b".to_string()), "a &amp; b");
    // `<` becomes `&lt;`, whose `&` the second replacement escapes again.
    assert_eq!(xml_escape_text("x<y".to_string()), "x&amp;lt;y");
    assert!(!xml_escape_text("<<a>&".to_string()).contains('<'));
}

#[test]
fn report_of_one_target() {
    let mut failing = result("//a:b", Some("t2"), 2, false, 30);
    failing.stdout = "out<".to_string();
    failing.stderr = "err&".to_string();
    let cases = vec![
        (result("//a:b", Some("t1"), 1, true, 20), "0.02".to_string()),
        (failing, "0.03".to_string()),
        (result("//a:b", None, 0, false, 0), "0".to_string()),
    ];
    let expected = [
        "<?xml version=\"1.0\" encoding=\"UTF-8\"?>\n",
        "<testsuites tests=\"3\" failures=\"1\">\n",
        "  <testsuite name=\"//a:b\" tests=\"3\" failures=\"1\" skipped=\"1\">\n",
        "    <testcase classname=\"//a:b\" name=\"t1\" time=\"0.02\" />\n",
        "    <testcase classname=\"//a:b\" name=\"t2\" time=\"0.03\">\n",
        "      <failure>Test failed after 2 unsuccessful attempts</failure>\n",
        "      <system-out>out&amp;lt;</system-out>\n",
        "      <system-err>err&amp;</system-err>\n",
        "    </testcase>\n",
        "    <testcase classname=\"//a:b\" name=\"//a:b\" time=\"0\">\n",
        "      <failure>Test failed after 0 unsuccessful attempts</failure>\n",
        "      <system-out></system-out>\n",
        "      <system-err></system-err>\n",
        "    </testcase>\n",
        "  </testsuite>\n",
        "</testsuites>\n",
    ]
    .concat();
    assert_eq!(report_xml(cases), expected);
}

#[test]
fn report_groups_by_target() {
    let cases = vec![
        (result("//x", None, 1, true, 1), "0.001".to_string()),
        (result("//y", None, 1, false, 2), "0.002".to_string()),
        (result("//x", Some("u"), 1, true, 3), "0.003".to_string()),
    ];
    let xml = report_xml(cases);
    assert!(xml.starts_with(
        "<?xml version=\"1.0\" encoding=\"UTF-8\"?>\n<testsuites tests=\"3\" failures=\"1\">\n"
    ));
    assert!(xml.ends_with("</testsuites>\n"));
    let x_suite = [
        "  <testsuite name=\"//x\" tests=\"2\" failures=\"0\" skipped=\"0\">\n",
        "    <testcase classname=\"//x\" name=\"//x\" time=\"0.001\" />\n",
        "    <testcase classname=\"//x\" name=\"u\" time=\"0.003\" />\n",
        "  </testsuite>\n",
    ]
    .concat();
    assert!(xml.contains(&x_suite));
    assert!(xml.contains("  <testsuite name=\"//y\" tests=\"1\" failures=\"1\" skipped=\"0\">\n"));
    assert_eq!(xml.matches("<testsuite ").count(), 2);
}

#[test]
fn render_report_keeps_the_order_given() {
    let suites = vec![
        ("//b".to_string(), vec![(result("//b", None, 1, true, 1), "1".to_string())]),
        ("//a".to_string(), vec![(result("//a", None, 0, false, 0), "0".to_string())]),
    ];
    let xml = render_report(2, 0, &suites);
    let b = xml.find("name=\"//b\"").unwrap();
    let a = xml.find("name=\"//a\"").unwrap();
    assert!(b < a);
    assert!(xml.contains("<testsuites tests=\"2\" failures=\"0\">\n"));
    assert!(xml.contains("  <testsuite name=\"//a\" tests=\"1\" failures=\"0\" skipped=\"1\">\n"));
}
