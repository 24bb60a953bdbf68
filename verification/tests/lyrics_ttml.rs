use wrapper_rust::api::AppleMusicApiError;
use wrapper_rust::ttml::{
    format_lrc_line, is_untimed_ttml, lrc_clock, split_ttml_timestamp, synchronized_lyrics,
    timed_lyrics_entries, ttml_lyrics, untimed_lyrics, TextStyle, TtmlLyrics, XmlNode,
};

fn text(s: &str) -> XmlNode {
    XmlNode::Text(s.into())
}

fn element(name: &str, attributes: &[(&str, &str)], children: Vec<XmlNode>) -> XmlNode {
    XmlNode::Element {
        name: name.into(),
        attributes: attributes.iter().map(|(k, v)| (None, k.to_string(), v.to_string())).collect(),
        children,
    }
}

fn span(s: &str) -> XmlNode {
    element("span", &[], vec![text(s)])
}

/// The document `<tt><body><div>{lines}</div></body></tt>` with the
/// whitespace between elements kept, as the XML parser keeps it.
fn document(lines: Vec<XmlNode>) -> XmlNode {
    let mut div_children = vec![text("\n  ")];
    for line in lines {
        div_children.push(line);
        div_children.push(text("\n  "));
    }
    let div = element("div", &[], div_children);
    let body = element("body", &[], vec![text("\n "), div, text("\n ")]);
    element("tt", &[], vec![text("\n"), body, text("\n")])
}

/// What the daemon does with one begin time and text: the seconds are read
/// as a float and rounded to centiseconds.
fn lrc_line(begin: &str, line_text: &str) -> String {
    let (hours, minutes, seconds_text) = split_ttml_timestamp(begin).expect("begin time");
    let seconds: f64 = seconds_text.parse().expect("seconds");
    let total = ((hours * 3600 + minutes * 60) as f64 + seconds) * 100.0;
    let (m, s, cs) = lrc_clock(total.round() as u32);
    format_lrc_line(m, s, cs, line_text)
}

fn to_lrc(root: &XmlNode) -> Result<String, AppleMusicApiError> {
    let lines = timed_lyrics_entries(root, TextStyle::Rendered)
        .iter()
        .map(|(begin, t)| lrc_line(begin, t))
        .collect();
    synchronized_lyrics(lines)
}

/// What the daemon gives for a TTML document: its lines as the library
/// picks them, with each begin time rounded to centiseconds.
fn ttml_text_to_lrc(ttml: &str) -> Result<String, AppleMusicApiError> {
    match ttml_lyrics(ttml)? {
        TtmlLyrics::Untimed(text) => Ok(text),
        TtmlLyrics::Timed(entries) => {
            synchronized_lyrics(entries.iter().map(|(begin, t)| lrc_line(begin, t)).collect())
        }
    }
}

#[test]
fn ttml_to_lrc_concatenates_normal_syllable_spans() {
    let lyrics = ttml_text_to_lrc(
        r#"
            <tt xmlns="http://www.w3.org/ns/ttml">
              <body>
                <div>
                  <p begin="00:20.02">
                    <span>摇曳海中</span><span>扁舟 </span><span>或穿越丛林的风</span>
                  </p>
                </div>
              </body>
            </tt>
            "#,
    )
    .expect("ttml should parse");

    assert_eq!(lyrics, "[00:20.02]摇曳海中扁舟 或穿越丛林的风");
}

#[test]
fn ttml_to_lrc_ignores_duplicate_nested_branches() {
    let lyrics = ttml_text_to_lrc(
        r#"
            <tt xmlns="http://www.w3.org/ns/ttml">
              <body>
                <div>
                  <p begin="00:20.02">
                    <span>
                      <span>摇曳海中</span><span>扁舟 </span><span>或穿越丛林的风</span>
                    </span>
                    <span>
                      <span>摇曳海中</span><span>扁舟 </span><span>或穿越丛林的风</span>
                    </span>
                  </p>
                </div>
              </body>
            </tt>
            "#,
    )
    .expect("ttml should parse");

    assert_eq!(lyrics, "[00:20.02]摇曳海中扁舟 或穿越丛林的风");
}

#[test]
fn the_same_lines_from_a_built_tree() {
    let p = element(
        "p",
        &[("begin", "00:20.02")],
        vec![
            text("\n    "),
            span("摇曳海中"),
            span("扁舟 "),
            span("或穿越丛林的风"),
            text("\n  "),
        ],
    );
    assert_eq!(to_lrc(&document(vec![p])).unwrap(), "[00:20.02]摇曳海中扁舟 或穿越丛林的风");
}

#[test]
fn parsed_documents_give_timed_entries_in_order() {
    let ttml = r#"<tt xmlns="http://www.w3.org/ns/ttml" xmlns:x="urn:x"><body><div>
        <p begin="1.5s">one</p>
        <p x:begin="9">namespaced begin only</p>
        <p begin="00:03.25" text=" attr "><span>body</span></p>
        <!-- a comment --><p begin="4"><span>fall</span><span>back</span></p>
    </div></body></tt>"#;
    match ttml_lyrics(ttml).expect("ttml should parse") {
        TtmlLyrics::Timed(entries) => {
            let expected: Vec<(String, String)> = vec![
                ("1.5s".into(), "one".into()),
                ("00:03.25".into(), "attr".into()),
                ("4".into(), "fallback".into()),
            ];
            assert_eq!(entries, expected);
        }
        other => panic!("unexpected {other:?}"),
    }
    assert_eq!(
        ttml_text_to_lrc(ttml).unwrap(),
        "[00:01.50]one\n[00:03.25]attr\n[00:04.00]fallback"
    );
}

#[test]
fn parsed_untimed_documents_join_their_lines() {
    let ttml = r#"<tt xmlns="http://www.w3.org/ns/ttml" xmlns:itunes="urn:itunes" itunes:timing="None"><body><div><p> first </p><p>  </p><p><span>sec</span><span>ond</span></p></div></body></tt>"#;
    match ttml_lyrics(ttml).expect("ttml should parse") {
        TtmlLyrics::Untimed(text) => assert_eq!(text, "first\nsecond"),
        other => panic!("unexpected {other:?}"),
    }
    let empty = r#"<tt xmlns:itunes="urn:itunes" itunes:timing="None"><body/></tt>"#;
    match ttml_lyrics(empty) {
        Err(AppleMusicApiError::Message(m)) => assert_eq!(m, "lyrics ttml did not contain any lines"),
        other => panic!("unexpected {other:?}"),
    }
}

#[test]
fn malformed_documents_report_the_parse_error() {
    match ttml_lyrics("<tt><body></tt>") {
        Err(AppleMusicApiError::Xml(m)) => assert!(!m.is_empty()),
        other => panic!("unexpected {other:?}"),
    }
    match ttml_lyrics("") {
        Err(AppleMusicApiError::Xml(_)) => {}
        other => panic!("unexpected {other:?}"),
    }
}

#[test]
fn timed_entries_skip_lines_without_begin_or_text() {
    let root = document(vec![
        element("p", &[("begin", "1.5s")], vec![text("one")]),
        element("p", &[], vec![text("no time")]),
        element("p", &[("begin", "2")], vec![text("   ")]),
        element("p", &[("begin", "3"), ("text", "  attr ")], vec![text("body")]),
        element("p", &[("begin", "4"), ("text", " ")], vec![text("fallback")]),
    ]);
    let entries = timed_lyrics_entries(&root, TextStyle::Rendered);
    let expected: Vec<(String, String)> = vec![
        ("1.5s".into(), "one".into()),
        ("3".into(), "attr".into()),
        ("4".into(), "fallback".into()),
    ];
    assert_eq!(entries, expected);
    assert_eq!(
        to_lrc(&root).unwrap(),
        "[00:01.50]one\n[00:03.00]attr\n[00:04.00]fallback"
    );
}

#[test]
fn document_without_synchronized_lines_is_refused() {
    let root = document(vec![element("p", &[], vec![text("x")])]);
    match to_lrc(&root) {
        Err(AppleMusicApiError::Message(m)) => {
            assert_eq!(m, "lyrics ttml did not contain any synchronized lines")
        }
        other => panic!("unexpected {other:?}"),
    }
}

#[test]
fn untimed_documents_list_their_line_texts() {
    assert!(is_untimed_ttml("<tt itunes:timing=\"None\">"));
    assert!(!is_untimed_ttml("<tt itunes:timing=\"Line\">"));
    let root = document(vec![
        element("p", &[], vec![text(" first ")]),
        element("p", &[], vec![text("  ")]),
        element("p", &[], vec![span("sec"), span("ond")]),
    ]);
    assert_eq!(untimed_lyrics(&root, TextStyle::Rendered).unwrap(), "first\nsecond");
    let empty = document(vec![]);
    match untimed_lyrics(&empty, TextStyle::Rendered) {
        Err(AppleMusicApiError::Message(m)) => assert_eq!(m, "lyrics ttml did not contain any lines"),
        other => panic!("unexpected {other:?}"),
    }
}

#[test]
fn flat_text_repeats_an_elements_first_text_child() {
    let p = element("p", &[], vec![text("a"), XmlNode::Comment("c".into()), span("b")]);
    let root = document(vec![p]);
    assert_eq!(untimed_lyrics(&root, TextStyle::Flat).unwrap(), "aacbb");
    assert_eq!(untimed_lyrics(&root, TextStyle::Rendered).unwrap(), "ab");
}

#[test]
fn begin_times_split_into_parts() {
    let (h, m, s) = split_ttml_timestamp(" 1:02:03.5s ").unwrap();
    assert_eq!((h, m, s.as_str()), (1, 2, "03.5"));
    let (h, m, s) = split_ttml_timestamp("02:03.5").unwrap();
    assert_eq!((h, m, s.as_str()), (0, 2, "03.5"));
    let (h, m, s) = split_ttml_timestamp("7").unwrap();
    assert_eq!((h, m, s.as_str()), (0, 0, "7"));
    let cases = [
        ("x:1:2", "invalid TTML hour: invalid digit found in string"),
        ("1::2", "invalid TTML minute: cannot parse integer from empty string"),
        ("99999999999:1", "invalid TTML minute: number too large to fit in target type"),
        ("1:2:3:4s", "unsupported TTML timestamp format: 1:2:3:4"),
    ];
    for (value, message) in cases {
        match split_ttml_timestamp(value) {
            Err(AppleMusicApiError::Protocol(m)) => assert_eq!(m, message),
            other => panic!("unexpected {other:?}"),
        }
    }
}

#[test]
fn clock_parts_of_centiseconds() {
    assert_eq!(lrc_clock(2002), (0, 20, 2));
    assert_eq!(lrc_clock(372_345), (62, 3, 45));
}
