use fuckace::task_xml::{
    decode_task_output, escape_xml_text, extract_task_command, needs_task_rebuild,
    path_with_backslashes, paths_equivalent, task_creation_failure, task_xml, unescape_xml_text,
    TASK_NAME, TASK_XML_HEAD, TASK_XML_TAIL,
};
use fuckace::utf16::utf16le_with_bom;

#[test]
fn escape_replaces_the_five_special_characters() {
    assert_eq!(
        escape_xml_text("a&b<c>\"d'e"),
        "a&amp;b&lt;c&gt;&quot;d&apos;e"
    );
    assert_eq!(escape_xml_text("C:\\Program Files\\FuckACE.exe"), "C:\\Program Files\\FuckACE.exe");
    assert_eq!(escape_xml_text(""), "");
    assert_eq!(escape_xml_text("&&"), "&amp;&amp;");
}

#[test]
fn unescape_replaces_entities_in_order() {
    assert_eq!(unescape_xml_text("a&amp;b&lt;c&gt;&quot;d&apos;e"), "a&b<c>\"d'e");
    assert_eq!(unescape_xml_text("&amp;lt;"), "&lt;");
    assert_eq!(unescape_xml_text("&lt"), "&lt");
}

#[test]
fn unescape_undoes_escape() {
    for s in ["", "plain", "&lt;", "<&>", "a'b\"c", "&amp;amp;", "D:\\游戏\\fuck&ace<1>.exe", "&&&<<<'''"] {
        assert_eq!(unescape_xml_text(&escape_xml_text(s)), s);
    }
}

#[test]
fn task_document_holds_escaped_command() {
    let xml = task_xml("C:\\A&B\\FuckACE.exe");
    assert!(xml.starts_with("<?xml version=\"1.0\" encoding=\"UTF-16\"?>\n<Task version=\"1.2\""));
    assert!(xml.contains("<Command>C:\\A&amp;B\\FuckACE.exe</Command>"));
    assert!(xml.contains("<Arguments>--autostart</Arguments>"));
    assert!(xml.contains("<Delay>PT10S</Delay>"));
    assert!(xml.ends_with("</Task>"));
    assert_eq!(xml, format!("{}{}{}", TASK_XML_HEAD, "C:\\A&amp;B\\FuckACE.exe", TASK_XML_TAIL));
    assert_eq!(TASK_NAME, "FuckACE_AutoStart");
}

#[test]
fn extract_task_command_reads_first_command() {
    assert_eq!(
        extract_task_command("<a><Command>  C:\\x.exe \n</Command><Command>y</Command>"),
        Some("C:\\x.exe".to_string())
    );
    assert_eq!(extract_task_command("<Command></Command>"), Some(String::new()));
}

#[test]
fn extract_task_command_without_tags_is_none() {
    assert_eq!(extract_task_command("no command here"), None);
    assert_eq!(extract_task_command("<Command>unterminated"), None);
    assert_eq!(extract_task_command("</Command><Command>x"), None);
}

#[test]
fn task_written_for_path_reads_back_as_path() {
    for path in ["C:\\Program Files\\FuckACE\\FuckACE.exe", "D:\\a&b\\<odd>'name\".exe", "x"] {
        let bytes = utf16le_with_bom(&task_xml(path));
        let text = decode_task_output(&bytes);
        assert_eq!(text, task_xml(path));
        let command = extract_task_command(&text).unwrap();
        assert_eq!(command, escape_xml_text(path));
        assert_eq!(unescape_xml_text(&command), path);
        assert!(!needs_task_rebuild(&command, path));
    }
}

#[test]
fn task_for_other_path_needs_rebuild() {
    let command = escape_xml_text("C:\\old\\FuckACE.exe");
    assert!(needs_task_rebuild(&command, "C:\\new\\FuckACE.exe"));
    assert!(!needs_task_rebuild(&command, "c:/OLD/fuckace.exe"));
}

#[test]
fn decode_task_output_reads_utf16_after_bom() {
    let bytes = vec![0xFF, 0xFE, 0x41, 0x00, 0x3D, 0xD8, 0x00, 0xDE, 0x42];
    assert_eq!(decode_task_output(&bytes), "A\u{1F600}");
    let lone = vec![0xFF, 0xFE, 0x00, 0xD8, 0x41, 0x00];
    assert_eq!(decode_task_output(&lone), "\u{FFFD}A");
}

#[test]
fn decode_task_output_reads_utf8_without_bom() {
    assert_eq!(decode_task_output(&"<Command>é</Command>".as_bytes().to_vec()), "<Command>é</Command>");
    assert_eq!(decode_task_output(&vec![0x61, 0xFF, 0x62]), "a\u{FFFD}b");
    assert_eq!(decode_task_output(&vec![0xFF]), "\u{FFFD}");
}

#[test]
fn paths_compare_without_case_and_separator_style() {
    assert!(paths_equivalent("C:/Games/FuckACE.exe", "c:\\games\\fuckace.exe"));
    assert!(!paths_equivalent("C:\\Games\\FuckACE.exe", "C:\\Games\\FuckACE2.exe"));
    assert_eq!(path_with_backslashes("a/b//c"), "a\\b\\\\c");
}

#[test]
fn task_creation_failure_trims_error_stream() {
    assert_eq!(
        task_creation_failure(&b"  ERROR: Access is denied.\r\n".to_vec()),
        "创建计划任务失败: ERROR: Access is denied."
    );
    assert_eq!(task_creation_failure(&Vec::new()), "创建计划任务失败: ");
}

#[test]
fn escaping_agrees_with_replace_chain() {
    for s in ["a&b<c>\"d'e", "&lt;&amp;", "", "plain text", "<<>>''\"\"&&"] {
        let chained = s
            .replace('&', "&amp;")
            .replace('<', "&lt;")
            .replace('>', "&gt;")
            .replace('"', "&quot;")
            .replace('\'', "&apos;");
        assert_eq!(escape_xml_text(s), chained);
        let back = s
            .replace("&lt;", "<")
            .replace("&gt;", ">")
            .replace("&quot;", "\"")
            .replace("&apos;", "'")
            .replace("&amp;", "&");
        assert_eq!(unescape_xml_text(s), back);
    }
}

#[test]
fn path_and_its_backslash_form_are_equivalent() {
    for p in ["C:/a/b.exe", "D:\\x/y\\z", "", "/"] {
        assert!(paths_equivalent(&path_with_backslashes(p), p));
        assert!(paths_equivalent(p, p));
    }
}
