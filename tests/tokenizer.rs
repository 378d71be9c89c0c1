use xmlparser::{ElementEnd, EntityDefinition, Error, ExternalId, StreamError, TextPos, Token, TokenType, Tokenizer};

fn span_text(s: &xmlparser::StrSpan) -> String {
    s.to_str().to_string()
}

fn id_text(id: &Option<ExternalId>) -> String {
    match id {
        None => "-".to_string(),
        Some(ExternalId::System(a)) => format!("SYSTEM {}", span_text(a)),
        Some(ExternalId::Public(a, b)) => format!("PUBLIC {} {}", span_text(a), span_text(b)),
    }
}

fn render(t: &Token) -> String {
    match t {
        Token::Declaration(v, e, s) => format!(
            "Declaration({}, {:?}, {:?})",
            span_text(v),
            e.map(|x| span_text(&x)),
            s
        ),
        Token::ProcessingInstruction(t, c) => {
            format!("PI({}, {:?})", span_text(t), c.map(|x| span_text(&x)))
        }
        Token::Comment(c) => format!("Comment({})", span_text(c)),
        Token::DtdStart(n, id) => format!("DtdStart({}, {})", span_text(n), id_text(id)),
        Token::EmptyDtd(n, id) => format!("EmptyDtd({}, {})", span_text(n), id_text(id)),
        Token::EntityDeclaration(n, d) => match d {
            EntityDefinition::EntityValue(v) => {
                format!("Entity({}, {})", span_text(n), span_text(v))
            }
            EntityDefinition::ExternalId(id) => {
                format!("Entity({}, {})", span_text(n), id_text(&Some(*id)))
            }
        },
        Token::DtdEnd => "DtdEnd".to_string(),
        Token::ElementStart(p, l) => format!("ElementStart({}, {})", span_text(p), span_text(l)),
        Token::Attribute((p, l), v) => {
            format!("Attribute({}, {}, {})", span_text(p), span_text(l), span_text(v))
        }
        Token::ElementEnd(ElementEnd::Open) => "ElementEnd(Open)".to_string(),
        Token::ElementEnd(ElementEnd::Empty) => "ElementEnd(Empty)".to_string(),
        Token::ElementEnd(ElementEnd::Close(p, l)) => {
            format!("ElementEnd(Close({}, {}))", span_text(p), span_text(l))
        }
        Token::Text(t) => format!("Text({})", span_text(t)),
        Token::Whitespaces(t) => format!("Whitespaces({})", span_text(t)),
        Token::Cdata(t) => format!("Cdata({})", span_text(t)),
    }
}

fn collect(mut tk: Tokenizer) -> Vec<Result<String, Error>> {
    let mut out = Vec::new();
    let mut guard = 0;
    while let Some(r) = tk.next() {
        out.push(r.map(|t| render(&t)));
        guard += 1;
        assert!(guard < 10_000);
    }
    out
}

fn tokens(text: &str) -> Vec<Result<String, Error>> {
    collect(Tokenizer::from_str(text))
}

fn fragment_tokens(text: &str) -> Vec<Result<String, Error>> {
    let mut tk = Tokenizer::from_str(text);
    tk.enable_fragment_mode();
    collect(tk)
}

fn ok(items: &[&str]) -> Vec<Result<String, Error>> {
    items.iter().map(|s| Ok(s.to_string())).collect()
}

#[test]
fn two_root_elements_are_rejected() {
    let mut expected = ok(&["ElementStart(, a)", "ElementEnd(Empty)"]);
    expected.push(Err(Error::UnexpectedToken(TokenType::ElementStart, TextPos::new(1, 5))));
    assert_eq!(tokens("<a/><a/>"), expected);
}

#[test]
fn mismatched_close_tags_are_not_checked() {
    assert_eq!(
        tokens("<root><child></root></child>"),
        ok(&[
            "ElementStart(, root)",
            "ElementEnd(Open)",
            "ElementStart(, child)",
            "ElementEnd(Open)",
            "ElementEnd(Close(, root))",
            "ElementEnd(Close(, child))",
        ])
    );
}

#[test]
fn duplicate_attributes_are_allowed() {
    assert_eq!(
        tokens("<item a=\"v1\" a=\"v2\"/>"),
        ok(&["ElementStart(, item)", "Attribute(, a, v1)", "Attribute(, a, v2)", "ElementEnd(Empty)"])
    );
}

#[test]
fn byte_order_mark_is_skipped() {
    assert_eq!(tokens("\u{FEFF}<a/>"), tokens("<a/>"));
    assert_eq!(tokens("<a/>"), ok(&["ElementStart(, a)", "ElementEnd(Empty)"]));
    let text = "\u{FEFF}<a/>";
    let mut tk = Tokenizer::from_str(text);
    match tk.next() {
        Some(Ok(Token::ElementStart(p, l))) => {
            assert_eq!(p.start(), 4);
            assert_eq!(l.start(), 4);
            assert_eq!(l.end(), 5);
        }
        other => panic!("unexpected {:?}", other),
    }
}

#[test]
fn byte_order_mark_allows_declaration() {
    assert_eq!(
        tokens("\u{FEFF}<?xml version='1.0'?><a/>"),
        ok(&["Declaration(1.0, None, None)", "ElementStart(, a)", "ElementEnd(Empty)"])
    );
}

#[test]
fn fragment_mode_accepts_siblings() {
    assert_eq!(
        fragment_tokens("<a/><b/>"),
        ok(&["ElementStart(, a)", "ElementEnd(Empty)", "ElementStart(, b)", "ElementEnd(Empty)"])
    );
}

#[test]
fn fragment_mode_accepts_text_and_stray_close() {
    assert_eq!(
        fragment_tokens("x</a><b>y</b>"),
        ok(&[
            "Text(x)",
            "ElementEnd(Close(, a))",
            "ElementStart(, b)",
            "ElementEnd(Open)",
            "Text(y)",
            "ElementEnd(Close(, b))",
        ])
    );
}

#[test]
fn comment_with_double_dash_is_an_error() {
    assert_eq!(
        tokens("<!-- a -- b -->"),
        vec![Err(Error::InvalidToken(TokenType::Comment, TextPos::new(1, 1), None))]
    );
}

#[test]
fn comment_keeps_its_spaces() {
    assert_eq!(tokens("<!-- ok -->"), ok(&["Comment( ok )"]));
}

#[test]
fn unterminated_comment_is_an_error() {
    assert_eq!(
        tokens("<a/>\n  <!-- x"),
        ok(&["ElementStart(, a)", "ElementEnd(Empty)"])
            .into_iter()
            .chain(vec![Err(Error::InvalidToken(TokenType::Comment, TextPos::new(2, 3), None))])
            .collect::<Vec<_>>()
    );
}

#[test]
fn attribute_value_with_lt_is_an_error() {
    let mut expected = ok(&["ElementStart(, a)"]);
    expected.push(Err(Error::InvalidToken(
        TokenType::Attribute,
        TextPos::new(1, 4),
        Some(StreamError::InvalidAttributeValue),
    )));
    assert_eq!(tokens("<a b='x<y'/>"), expected);
}

#[test]
fn doctype_error_points_at_its_start() {
    let r = tokens("\n\n  <!DOCTYPE !>");
    assert_eq!(r.len(), 1);
    match &r[0] {
        Err(Error::InvalidToken(TokenType::DoctypeDecl, pos, Some(_))) => {
            assert_eq!(*pos, TextPos::new(3, 3));
        }
        other => panic!("unexpected {:?}", other),
    }
}

#[test]
fn doctype_error_after_declaration() {
    let r = tokens("<?xml version='1.0'?><!DOCTYPE x SYSTEM>");
    assert_eq!(r[0], Ok("Declaration(1.0, None, None)".to_string()));
    match &r[1] {
        Err(Error::InvalidToken(TokenType::DoctypeDecl, pos, Some(_))) => {
            assert_eq!(*pos, TextPos::new(1, 22));
        }
        other => panic!("unexpected {:?}", other),
    }
    assert_eq!(r.len(), 2);
}

#[test]
fn spans_match_the_input() {
    let text = "<?xml version=\"1.0\"?>\n<!DOCTYPE r [<!ENTITY e 'v'>]>\n<p:r a:b='c'><!--k--><![CDATA[d]]>t &amp;<?pi x?></p:r>";
    let mut tk = Tokenizer::from_str(text);
    let bytes = text.as_bytes();
    let mut n = 0;
    while let Some(r) = tk.next() {
        let t = r.unwrap();
        let spans = match t {
            Token::Declaration(v, _, _) => vec![v],
            Token::ProcessingInstruction(a, b) => {
                let mut v = vec![a];
                v.extend(b);
                v
            }
            Token::Comment(c) | Token::Text(c) | Token::Whitespaces(c) | Token::Cdata(c) => vec![c],
            Token::DtdStart(n, _) | Token::EmptyDtd(n, _) => vec![n],
            Token::EntityDeclaration(n, EntityDefinition::EntityValue(v)) => vec![n, v],
            Token::EntityDeclaration(n, _) => vec![n],
            Token::DtdEnd => vec![],
            Token::ElementStart(p, l) => vec![p, l],
            Token::Attribute((p, l), v) => vec![p, l, v],
            Token::ElementEnd(ElementEnd::Close(p, l)) => vec![p, l],
            Token::ElementEnd(_) => vec![],
        };
        for s in spans {
            assert_eq!(s.as_bytes(), &bytes[s.start()..s.end()]);
            assert_eq!(s.to_str(), &text[s.start()..s.end()]);
            assert_eq!(s.full_str(), text);
        }
        n += 1;
    }
    assert_eq!(n, 12);
}

#[test]
fn tokenizing_twice_gives_the_same_results() {
    let text = "<?xml version='1.0' encoding='UTF-8'?><!-- c --><r a='1'>x<b/>y</r><!-- bad -- -->";
    assert_eq!(tokens(text), tokens(text));
    let bad = "<r><a></r> <x";
    assert_eq!(tokens(bad), tokens(bad));
}

#[test]
fn full_declaration() {
    assert_eq!(
        tokens("<?xml version=\"1.0\" encoding=\"UTF-8\" standalone=\"yes\"?><a/>"),
        ok(&["Declaration(1.0, Some(\"UTF-8\"), Some(true))", "ElementStart(, a)", "ElementEnd(Empty)"])
    );
    assert_eq!(
        tokens("<?xml version='1.10' standalone='no' ?><a/>")[0],
        Ok("Declaration(1.10, None, Some(false))".to_string())
    );
}

#[test]
fn invalid_standalone_is_an_error() {
    let r = tokens("<?xml version='1.0' standalone='maybe'?>");
    assert_eq!(r.len(), 1);
    match &r[0] {
        Err(Error::InvalidToken(TokenType::XMLDecl, pos, Some(StreamError::InvalidString(v, p)))) => {
            assert_eq!(*pos, TextPos::new(1, 1));
            assert_eq!(*p, TextPos::new(1, 33));
            assert_eq!(v.clone(), vec![b"maybe".to_vec(), b"yes".to_vec(), b"no".to_vec()]);
        }
        other => panic!("unexpected {:?}", other),
    }
}

#[test]
fn invalid_version_is_an_error() {
    let r = tokens("<?xml version='2.0'?>");
    match &r[0] {
        Err(Error::InvalidToken(TokenType::XMLDecl, pos, Some(StreamError::InvalidString(v, _)))) => {
            assert_eq!(*pos, TextPos::new(1, 1));
            assert_eq!(v.clone(), vec![b"1.".to_vec()]);
        }
        other => panic!("unexpected {:?}", other),
    }
}

#[test]
fn declaration_only_at_the_start() {
    assert_eq!(
        tokens(" <?xml version='1.0'?>"),
        vec![Err(Error::UnexpectedToken(TokenType::XMLDecl, TextPos::new(1, 2)))]
    );
}

#[test]
fn processing_instructions() {
    assert_eq!(
        tokens("<?a?><?b  c d ?><r/>"),
        ok(&["PI(a, None)", "PI(b, Some(\"c d \"))", "ElementStart(, r)", "ElementEnd(Empty)"])
    );
}

#[test]
fn doctype_forms() {
    assert_eq!(
        tokens("<!DOCTYPE r SYSTEM 'a.dtd'><r/>"),
        ok(&["EmptyDtd(r, SYSTEM a.dtd)", "ElementStart(, r)", "ElementEnd(Empty)"])
    );
    assert_eq!(
        tokens("<!DOCTYPE r PUBLIC \"p\" 's'>")[0],
        Ok("EmptyDtd(r, PUBLIC p s)".to_string())
    );
    assert_eq!(
        tokens("<!DOCTYPE r [\n<!ELEMENT r ANY>\n<!ATTLIST r a CDATA #IMPLIED>\n<!NOTATION n SYSTEM 'x'>\n<!ENTITY e \"v\">\n<!ENTITY % p SYSTEM 'u'>\n<!ENTITY g SYSTEM 'u' NDATA n>\n<!-- c -->\n]>\n<r/>"),
        ok(&[
            "DtdStart(r, -)",
            "Entity(e, v)",
            "Entity(p, SYSTEM u)",
            "Entity(g, SYSTEM u)",
            "Comment( c )",
            "DtdEnd",
            "ElementStart(, r)",
            "ElementEnd(Empty)",
        ])
    );
}

#[test]
fn entity_with_bad_definition() {
    let r = tokens("<!DOCTYPE r [<!ENTITY e x>]>");
    assert_eq!(r[0], Ok("DtdStart(r, -)".to_string()));
    match &r[1] {
        Err(Error::InvalidToken(TokenType::EntityDecl, pos, Some(StreamError::InvalidChar(v, _)))) => {
            assert_eq!(*pos, TextPos::new(1, 14));
            assert_eq!(v.clone(), vec![b'x', b'"', b'\'', b'S', b'P']);
        }
        other => panic!("unexpected {:?}", other),
    }
    let r = tokens("<!DOCTYPE r [<!ENTITY e SOME>]>");
    assert_eq!(
        r[1],
        Err(Error::InvalidToken(TokenType::EntityDecl, TextPos::new(1, 14), Some(StreamError::InvalidExternalID)))
    );
}

#[test]
fn cdata_and_text() {
    assert_eq!(
        tokens("<r><![CDATA[<x>]]]>  \n<![CDATA[]]>a b</r>"),
        ok(&[
            "ElementStart(, r)",
            "ElementEnd(Open)",
            "Cdata(<x>])",
            "Whitespaces(  \n)",
            "Cdata()",
            "Text(a b)",
            "ElementEnd(Close(, r))",
        ])
    );
}

#[test]
fn unterminated_cdata_is_an_error() {
    let r = tokens("<r><![CDATA[abc");
    assert_eq!(r.len(), 3);
    match &r[2] {
        Err(Error::InvalidToken(TokenType::CDSect, pos, Some(_))) => assert_eq!(*pos, TextPos::new(1, 4)),
        other => panic!("unexpected {:?}", other),
    }
}

#[test]
fn qualified_names() {
    assert_eq!(
        tokens("<a:b c:d='1' e='2'></a:b >"),
        ok(&[
            "ElementStart(a, b)",
            "Attribute(c, d, 1)",
            "Attribute(, e, 2)",
            "ElementEnd(Open)",
            "ElementEnd(Close(a, b))",
        ])
    );
}

#[test]
fn unicode_names_and_columns() {
    assert_eq!(tokens("<é ü='ö'/>"), ok(&["ElementStart(, é)", "Attribute(, ü, ö)", "ElementEnd(Empty)"]));
    assert_eq!(
        tokens("<é/><a/>")[2],
        Err(Error::UnexpectedToken(TokenType::ElementStart, TextPos::new(1, 5)))
    );
}

#[test]
fn unknown_markup_is_an_error() {
    assert_eq!(tokens("<!x>"), vec![Err(Error::UnknownToken(TextPos::new(1, 1)))]);
    assert_eq!(tokens("x"), vec![Err(Error::UnknownToken(TextPos::new(1, 1)))]);
    assert_eq!(tokens("<"), vec![Err(Error::UnknownToken(TextPos::new(1, 1)))]);
}

#[test]
fn invalid_element_name() {
    assert_eq!(
        tokens("<1a/>"),
        vec![Err(Error::InvalidToken(TokenType::ElementStart, TextPos::new(1, 1), Some(StreamError::InvalidName)))]
    );
}

#[test]
fn error_ends_the_sequence() {
    let mut tk = Tokenizer::from_str("<a b='<'/><c/>");
    assert!(matches!(tk.next(), Some(Ok(Token::ElementStart(..)))));
    assert!(matches!(tk.next(), Some(Err(_))));
    assert!(tk.next().is_none());
    assert!(tk.next().is_none());
}

#[test]
fn empty_and_blank_input() {
    assert!(tokens("").is_empty());
    assert!(tokens(" \n\t ").is_empty());
}

#[test]
fn trailing_comments_after_root() {
    assert_eq!(
        tokens("<r></r>\n<!--a--><?p?>\n"),
        ok(&["ElementStart(, r)", "ElementEnd(Open)", "ElementEnd(Close(, r))", "Comment(a)", "PI(p, None)"])
    );
}

#[test]
fn text_after_root_is_an_error() {
    assert_eq!(
        tokens("<r/>x"),
        ok(&["ElementStart(, r)", "ElementEnd(Empty)"])
            .into_iter()
            .chain(vec![Err(Error::UnknownToken(TextPos::new(1, 5)))])
            .collect::<Vec<_>>()
    );
}

#[test]
fn tokenizer_over_a_span() {
    let text = "junk<a/>junk";
    let span = xmlparser::StrSpan::new(text, 4, 8);
    assert_eq!(span.to_str(), "<a/>");
    assert_eq!(collect(Tokenizer::from_span(span)), ok(&["ElementStart(, a)", "ElementEnd(Empty)"]));
}

#[test]
fn span_helpers() {
    let text = "héllo";
    let s = xmlparser::StrSpan::new(text, 1, 3);
    assert_eq!(s.to_str(), "é");
    assert_eq!(s.len(), 2);
    assert!(!s.is_empty());
    let bad = xmlparser::StrSpan::new(text, 2, 3);
    assert_eq!(bad.to_str(), "");
    let t = xmlparser::StrSpan::new(text, 0, 1).extend_to(&xmlparser::StrSpan::new(text, 3, 6));
    assert_eq!(t.to_str(), "héllo");
}

#[test]
fn token_type_names() {
    assert_eq!(TokenType::XMLDecl.as_str(), "Declaration");
    assert_eq!(TokenType::PI.as_str(), "Processing Instruction");
    assert_eq!(TokenType::CharData.as_str(), "Character data");
    assert_eq!(TokenType::Unknown.as_str(), "Unknown");
}

#[test]
fn tag_ends_after_spaces() {
    assert_eq!(
        tokens("<a  \n>< b/>"),
        vec![
            Ok("ElementStart(, a)".to_string()),
            Ok("ElementEnd(Open)".to_string()),
            Err(Error::InvalidToken(TokenType::ElementStart, TextPos::new(2, 2), Some(StreamError::InvalidName))),
        ]
    );
    assert_eq!(
        tokens("<a x='1'  />"),
        ok(&["ElementStart(, a)", "Attribute(, x, 1)", "ElementEnd(Empty)"])
    );
}

#[test]
fn attribute_without_equals_is_an_error() {
    let r = tokens("<a x/>");
    match &r[1] {
        Err(Error::InvalidToken(TokenType::Attribute, pos, Some(StreamError::InvalidChar(v, _)))) => {
            assert_eq!(*pos, TextPos::new(1, 4));
            assert_eq!(v.clone(), vec![b'/', b'=']);
        }
        other => panic!("unexpected {:?}", other),
    }
}

#[test]
fn doctype_needs_space_and_terminator() {
    match &tokens("<!DOCTYPEr>")[0] {
        Err(Error::InvalidToken(TokenType::DoctypeDecl, pos, Some(StreamError::InvalidSpace(c, _)))) => {
            assert_eq!(*pos, TextPos::new(1, 1));
            assert_eq!(*c, b'r');
        }
        other => panic!("unexpected {:?}", other),
    }
    match &tokens("<!DOCTYPE r SYSTEM 'x' y>")[0] {
        Err(Error::InvalidToken(TokenType::DoctypeDecl, pos, Some(StreamError::InvalidChar(v, _)))) => {
            assert_eq!(*pos, TextPos::new(1, 1));
            assert_eq!(v.clone(), vec![b'y', b'[', b'>']);
        }
        other => panic!("unexpected {:?}", other),
    }
    match &tokens("<!DOCTYPE r PUBLIC 'x'>")[0] {
        Err(Error::InvalidToken(TokenType::DoctypeDecl, _, Some(StreamError::InvalidSpace(c, _)))) => {
            assert_eq!(*c, b'>');
        }
        other => panic!("unexpected {:?}", other),
    }
}

#[test]
fn unterminated_literal_is_an_error() {
    match &tokens("<!DOCTYPE r SYSTEM 'x>")[0] {
        Err(Error::InvalidToken(TokenType::DoctypeDecl, _, Some(StreamError::UnexpectedEndOfStream))) => {}
        other => panic!("unexpected {:?}", other),
    }
}

#[test]
fn entity_declaration_edges() {
    let r = tokens("<!DOCTYPE r [<!ENTITY %p 'v'>]>");
    match &r[1] {
        Err(Error::InvalidToken(TokenType::EntityDecl, pos, Some(StreamError::InvalidSpace(c, _)))) => {
            assert_eq!(*pos, TextPos::new(1, 14));
            assert_eq!(*c, b'p');
        }
        other => panic!("unexpected {:?}", other),
    }
    let r = tokens("<!DOCTYPE r [<!ENTITY g SYSTEM 'u' NDATA>]>");
    assert!(matches!(&r[1], Err(Error::InvalidToken(TokenType::EntityDecl, _, Some(StreamError::InvalidSpace(..))))));
    let r = tokens("<!DOCTYPE r [<!ENTITY % p SYSTEM 'u' NDATA n>]>");
    assert!(matches!(&r[1], Err(Error::InvalidToken(TokenType::EntityDecl, _, Some(StreamError::InvalidChar(..))))));
    assert_eq!(
        tokens("<!DOCTYPE r [<!ENTITY e PUBLIC 'a' \"b\" >]><r/>")[1],
        Ok("Entity(e, PUBLIC a b)".to_string())
    );
}

#[test]
fn declaration_edges() {
    assert_eq!(
        tokens("<?xml version='1.0' encoding='latin-1.x_y'?><r/>")[0],
        Ok("Declaration(1.0, Some(\"latin-1.x_y\"), None)".to_string())
    );
    assert!(matches!(
        &tokens("<?xml version='1.0'")[0],
        Err(Error::InvalidToken(TokenType::XMLDecl, _, Some(StreamError::InvalidString(..))))
    ));
    assert!(matches!(
        &tokens("<?xml version = \"1.0' ?><r/>")[0],
        Ok(_)
    ));
    assert!(matches!(
        &tokens("<?xml version='1.0' encoding='x' standalone=yes?>")[0],
        Err(Error::InvalidToken(TokenType::XMLDecl, _, Some(StreamError::InvalidChar(..))))
    ));
}

#[test]
fn dtd_end_and_skipped_declarations() {
    assert_eq!(
        tokens("<!DOCTYPE r [ <!ELEMENT r (#PCDATA)> ]><r/>"),
        ok(&["DtdStart(r, -)", "DtdEnd", "ElementStart(, r)", "ElementEnd(Empty)"])
    );
    assert!(matches!(
        &tokens("<!DOCTYPE r [<!ELEMENT>]>")[1],
        Err(Error::UnexpectedToken(TokenType::ElementDecl, _))
    ));
}

#[test]
fn encoding_name_must_start_with_a_letter() {
    for text in ["<?xml version='1.0' encoding=''?><r/>", "<?xml version='1.0' encoding='-x'?><r/>", "<?xml version='1.0' encoding='8bit'?><r/>"] {
        let r = tokens(text);
        assert_eq!(r.len(), 1, "{}", text);
        match &r[0] {
            Err(Error::InvalidToken(TokenType::XMLDecl, pos, Some(StreamError::InvalidName))) => {
                assert_eq!(*pos, TextPos::new(1, 1));
            }
            other => panic!("unexpected {:?} for {}", other, text),
        }
    }
}

#[test]
fn skipped_declaration_ends_at_unquoted_gt() {
    assert_eq!(
        tokens("<!DOCTYPE r [<!ATTLIST r a CDATA 'x>y'><!ENTITY e 'v'>]><r/>"),
        ok(&["DtdStart(r, -)", "Entity(e, v)", "DtdEnd", "ElementStart(, r)", "ElementEnd(Empty)"])
    );
    assert!(matches!(
        &tokens("<!DOCTYPE r [<!NOTATION n SYSTEM \"a>")[1],
        Err(Error::UnexpectedToken(TokenType::NotationDecl, _))
    ));
}

#[test]
fn tokens_not_taken_by_a_context_are_rejected() {
    assert_eq!(tokens("</a>"), vec![Err(Error::UnexpectedToken(TokenType::ElementClose, TextPos::new(1, 1)))]);
    assert_eq!(tokens("<![CDATA[x]]>"), vec![Err(Error::UnexpectedToken(TokenType::CDSect, TextPos::new(1, 1)))]);
    assert_eq!(tokens("<!FOO>"), vec![Err(Error::UnknownToken(TextPos::new(1, 1)))]);
    assert_eq!(tokens("<!"), vec![Err(Error::UnknownToken(TextPos::new(1, 1)))]);
    let r = tokens("<!DOCTYPE r [x]>");
    assert_eq!(r[1], Err(Error::UnknownToken(TextPos::new(1, 14))));
    let r = tokens("<!DOCTYPE r [<a/>]>");
    assert_eq!(r[1], Err(Error::UnexpectedToken(TokenType::ElementStart, TextPos::new(1, 14))));
    let r = tokens("<r/><![CDATA[x]]>");
    assert_eq!(r[2], Err(Error::UnexpectedToken(TokenType::CDSect, TextPos::new(1, 5))));
}

#[test]
fn whitespace_before_tokens_is_passed_over() {
    assert_eq!(
        tokens("<?xml version='1.0'?>\n<r/>  \n<a/>"),
        ok(&["Declaration(1.0, None, None)", "ElementStart(, r)", "ElementEnd(Empty)"])
            .into_iter()
            .chain(vec![Err(Error::UnexpectedToken(TokenType::ElementStart, TextPos::new(3, 1)))])
            .collect::<Vec<_>>()
    );
    assert_eq!(tokens(" \n <!DOCTYPE r [ \n <!ELEMENT r ANY>  <!ENTITY x 'y'> ]> <r/>")[1], Ok("Entity(x, y)".to_string()));
}

#[test]
fn fullwidth_letter_names() {
    assert_eq!(tokens("<\u{FF21}/>"), ok(&["ElementStart(, \u{FF21})", "ElementEnd(Empty)"]));
    assert_eq!(fragment_tokens("\u{FF21}<a/>")[0], Ok("Text(\u{FF21})".to_string()));
}

#[test]
fn bracket_text_and_stray_slash() {
    assert_eq!(fragment_tokens("]x<a/>")[0], Ok("Text(]x)".to_string()));
    assert_eq!(
        tokens("<a />")[1],
        Ok("ElementEnd(Empty)".to_string())
    );
    match &tokens("<a  /x>")[1] {
        Err(Error::InvalidToken(TokenType::Attribute, pos, Some(_))) => assert_eq!(*pos, TextPos::new(1, 5)),
        other => panic!("unexpected {:?}", other),
    }
}

#[test]
fn only_whitespace_after_prologue_gives_nothing() {
    let mut tk = Tokenizer::from_str("<r/>\n \t\r\n");
    assert!(matches!(tk.next(), Some(Ok(Token::ElementStart(..)))));
    assert!(matches!(tk.next(), Some(Ok(Token::ElementEnd(ElementEnd::Empty)))));
    assert!(tk.next().is_none());
}
