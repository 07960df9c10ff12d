use markdown_gen::AsMarkdown;
use markdown_gen::Heading;
use markdown_gen::Markdown;
use markdown_gen::MarkdownWritable;
use markdown_gen::Paragraph;
use markdown_gen::WriteError;

#[test]
fn end_to_end_document() {
    let mut md = Markdown::new(Vec::new());
    md.write("heading1".heading(1)).unwrap();
    md.write("heading2".heading(2).append(" appended")).unwrap();
    md.write("first\nparagraph".paragraph().append(" appended"))
        .unwrap();
    assert_eq!(
        String::from_utf8(md.into_inner()).unwrap(),
        "# heading1\n## heading2 appended\nfirst\nparagraph appended\n\n"
    );
}

#[test]
fn every_special_byte_is_escaped_once() {
    let mut md = Markdown::new(Vec::new());
    md.write("\\`*_{}[]()#+-.!").unwrap();
    assert_eq!(
        String::from_utf8(md.into_inner()).unwrap(),
        "\\\\\\`\\*\\_\\{\\}\\[\\]\\(\\)\\#\\+\\-\\.\\!\n\n"
    );
}

#[test]
fn unescaping_restores_the_original() {
    let original = "a\\b`c*d_e{f}g[h]i(j)k#l+m-n.o!p plain";
    let mut md = Markdown::new(Vec::new());
    md.write(original.paragraph()).unwrap();
    let out = md.into_inner();
    let body = &out[..out.len() - 2];
    let mut restored: Vec<u8> = Vec::new();
    let mut i = 0;
    while i < body.len() {
        if body[i] == b'\\' && i + 1 < body.len() {
            restored.push(body[i + 1]);
            i += 2;
        } else {
            restored.push(body[i]);
            i += 1;
        }
    }
    assert_eq!(restored, original.as_bytes());
}

#[test]
fn fence_is_one_longer_than_interior_run() {
    let mut md = Markdown::new(Vec::new());
    md.write("a``b".code()).unwrap();
    assert_eq!(
        String::from_utf8(md.into_inner()).unwrap(),
        "``` a``b ```\n\n"
    );
}

#[test]
fn fence_counts_a_trailing_run() {
    let mut md = Markdown::new(Vec::new());
    md.write("ab```".code()).unwrap();
    assert_eq!(
        String::from_utf8(md.into_inner()).unwrap(),
        "```` ab``` ````\n\n"
    );
}

#[test]
fn fence_around_empty_code() {
    let mut md = Markdown::new(Vec::new());
    md.write("".code()).unwrap();
    assert_eq!(String::from_utf8(md.into_inner()).unwrap(), "`  `\n\n");
}

#[test]
fn empty_paragraph_is_one_blank_line() {
    let mut md = Markdown::new(Vec::new());
    md.write(Paragraph::new()).unwrap();
    assert_eq!(String::from_utf8(md.into_inner()).unwrap(), "\n\n");
}

#[test]
fn empty_string_is_one_blank_line() {
    let mut md = Markdown::new(Vec::new());
    md.write("").unwrap();
    assert_eq!(String::from_utf8(md.into_inner()).unwrap(), "\n\n");
}

#[test]
fn nested_paragraph_is_rejected() {
    let mut md = Markdown::new(Vec::new());
    let result = md.write("outer".paragraph().append("inner".paragraph()));
    assert_eq!(result, Err(WriteError::InvalidStructure));
    assert_eq!(String::from_utf8(md.into_inner()).unwrap(), "");
}

#[test]
fn nested_heading_is_rejected_whatever_it_holds() {
    let mut md = Markdown::new(Vec::new());
    let result = md.write("text".link_to("https://a.url").append("deep".heading(3)));
    assert_eq!(result, Err(WriteError::InvalidStructure));
    assert_eq!(String::from_utf8(md.into_inner()).unwrap(), "");
}

#[test]
fn heading_level_out_of_range_is_rejected() {
    let mut md = Markdown::new(Vec::new());
    let result = md.write(Heading { children: Vec::new(), level: 7 });
    assert_eq!(result, Err(WriteError::InvalidStructure));
    let result = md.write(Heading { children: Vec::new(), level: 0 });
    assert_eq!(result, Err(WriteError::InvalidStructure));
    assert_eq!(String::from_utf8(md.into_inner()).unwrap(), "");
}

#[test]
fn streak_counts_include_the_open_run() {
    assert_eq!("ab``".count_max_streak(b'`', 0), (2, 2));
    assert_eq!("``ab".count_max_streak(b'`', 3), (5, 0));
    assert_eq!("a``b```c".count_max_streak(b'`', 0), (3, 0));
    assert_eq!("".count_max_streak(b'`', 4), (4, 4));
}

#[test]
fn streak_carries_across_paragraph_children() {
    let mut p = Paragraph::new();
    p.append("a``").append("``b");
    assert_eq!(p.count_max_streak(b'`', 0), (4, 0));
}

#[test]
fn streak_of_link_compares_address_and_text() {
    let l = "a``a".link_to("x```y");
    assert_eq!(l.count_max_streak(b'`', 0), (3, 0));
}

#[test]
fn link_in_paragraph_has_no_trailing_break() {
    let mut md = Markdown::new(Vec::new());
    md.write("see ".paragraph().append("docs".link_to("https://d.url")))
        .unwrap();
    assert_eq!(
        String::from_utf8(md.into_inner()).unwrap(),
        "see [docs](https://d\\.url)\n\n"
    );
}

#[test]
fn inline_code_is_not_escaped() {
    let mut md = Markdown::new(Vec::new());
    md.write("a*b[c]d\\e".code()).unwrap();
    assert_eq!(
        String::from_utf8(md.into_inner()).unwrap(),
        "` a*b[c]d\\e `\n\n"
    );
}

#[test]
fn sink_keeps_existing_bytes() {
    let mut md = Markdown::new(b"start\n".to_vec());
    md.write("next").unwrap();
    assert_eq!(
        String::from_utf8(md.into_inner()).unwrap(),
        "start\nnext\n\n"
    );
}
