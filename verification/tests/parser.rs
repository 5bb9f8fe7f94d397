use orrery::ast::{
    AttributeValue, ComponentContent, DiagramSource, Element, FileAst, FileHeader, TypeSpec,
};
use orrery::error::ErrorCode;
use orrery::identifier::Id;
use orrery::parser::{
    activate_block, activate_statement, attribute, attribute_value, build_diagram, convert_error,
    deactivate_statement, diagram_header_with_semicolon, identifier, identifiers,
    invocation_type_spec, multi_block, nested_identifier, note_element, raw_identifier, relation,
    relation_type, semicolon, single_block, string_literal, type_definition, type_spec, ws1,
    Context, MultiKind, PError, SingleKind,
};
use orrery::semantic::DiagramKind;
use orrery::span::{Span, Spanned};
use orrery::tokens::{PositionedToken, Token};

// ---------------------------------------------------------------------------
// Test helpers
// ---------------------------------------------------------------------------

/// Splits source text into tokens, with byte spans, for the parser tests.
fn parse_tokens(input: &str) -> Vec<PositionedToken> {
    let chars: Vec<(usize, char)> = input.char_indices().collect();
    let n = chars.len();
    let offset = |i: usize| if i < n { chars[i].0 } else { input.len() };
    let at = |i: usize| if i < n { Some(chars[i].1) } else { None };
    let mut out = Vec::new();
    let mut i = 0;
    while i < n {
        let start = chars[i].0;
        let c = chars[i].1;
        let (token, next) = if c == ' ' || c == '\t' || c == '\r' {
            let mut j = i;
            while matches!(at(j), Some(' ') | Some('\t') | Some('\r')) {
                j += 1;
            }
            (Token::Whitespace, j)
        } else if c == '\n' {
            (Token::Newline, i + 1)
        } else if c == '/' && at(i + 1) == Some('/') {
            let mut j = i + 2;
            while j < n && chars[j].1 != '\n' {
                j += 1;
            }
            (Token::LineComment(input[offset(i + 2)..offset(j)].to_string()), j)
        } else if c == '"' {
            let mut j = i + 1;
            let mut text = String::new();
            while j < n && chars[j].1 != '"' {
                if chars[j].1 == '\\' && j + 1 < n {
                    let escaped = match chars[j + 1].1 {
                        'n' => '\n',
                        't' => '\t',
                        other => other,
                    };
                    text.push(escaped);
                    j += 2;
                } else {
                    text.push(chars[j].1);
                    j += 1;
                }
            }
            (Token::StringLiteral(text), j + 1)
        } else if c.is_ascii_digit() {
            let mut j = i;
            while matches!(at(j), Some(d) if d.is_ascii_digit() || d == '.') {
                j += 1;
            }
            (Token::FloatLiteral(input[start..offset(j)].to_string()), j)
        } else if c.is_alphabetic() || c == '_' {
            let mut j = i;
            while matches!(at(j), Some(d) if d.is_alphanumeric() || d == '_') {
                j += 1;
            }
            let word = &input[start..offset(j)];
            let token = match word {
                "component" => Token::Component,
                "sequence" => Token::Sequence,
                "type" => Token::Type,
                "diagram" => Token::Diagram,
                "embed" => Token::Embed,
                "as" => Token::As,
                "activate" => Token::Activate,
                "deactivate" => Token::Deactivate,
                "note" => Token::Note,
                "fragment" => Token::Fragment,
                "section" => Token::Section,
                "alt" => Token::Alt,
                "else" => Token::Else,
                "opt" => Token::Opt,
                "loop" => Token::Loop,
                "par" => Token::Par,
                "break" => Token::Break,
                "critical" => Token::Critical,
                _ => Token::Identifier(word.to_string()),
            };
            (token, j)
        } else if c == '<' && at(i + 1) == Some('-') && at(i + 2) == Some('>') {
            (Token::DoubleArrow, i + 3)
        } else if c == '<' && at(i + 1) == Some('-') {
            (Token::LeftArrow, i + 2)
        } else if c == '-' && at(i + 1) == Some('>') {
            (Token::Arrow, i + 2)
        } else if c == ':' && at(i + 1) == Some(':') {
            (Token::DoubleColon, i + 2)
        } else {
            let token = match c {
                '-' => Token::Plain,
                ':' => Token::Colon,
                ';' => Token::Semicolon,
                ',' => Token::Comma,
                '=' => Token::Equals,
                '@' => Token::At,
                '{' => Token::LeftBrace,
                '}' => Token::RightBrace,
                '[' => Token::LeftBracket,
                ']' => Token::RightBracket,
                other => panic!("unexpected character {other:?}"),
            };
            (token, i + 1)
        };
        out.push(PositionedToken { token, span: Span::new(start..offset(next)) });
        i = next;
    }
    out
}

/// The span of the first identifier token.
fn first_identifier_span(tokens: &[PositionedToken]) -> Span {
    tokens
        .iter()
        .find_map(|t| match &t.token {
            Token::Identifier(_) => Some(t.span),
            _ => None,
        })
        .expect("identifier token not found")
}

/// The span from the first to the last identifier token.
fn nested_identifier_span(tokens: &[PositionedToken]) -> Span {
    let mut id_spans = tokens.iter().filter_map(|t| match &t.token {
        Token::Identifier(_) => Some(t.span),
        _ => None,
    });
    let first = id_spans.next().expect("at least one identifier expected for nested identifier");
    let last = id_spans.next_back().unwrap_or(first);
    first.union(last)
}

/// A token at a given offset with a given length.
fn make_token(token: Token, offset: usize, length: usize) -> PositionedToken {
    PositionedToken { token, span: Span::new(offset..offset + length) }
}

/// A numeric attribute value as a number.
fn number(value: &AttributeValue) -> Option<f32> {
    match value {
        AttributeValue::Float(f) => f.inner().parse::<f32>().ok(),
        _ => None,
    }
}

/// A string attribute value.
fn text(value: &AttributeValue) -> Option<&str> {
    match value {
        AttributeValue::String(s) => Some(s.inner().as_str()),
        _ => None,
    }
}

// ---------------------------------------------------------------------------
// Names and literals
// ---------------------------------------------------------------------------

#[test]
fn test_raw_identifier() {
    let tokens = parse_tokens("test_name");
    let result = raw_identifier(&tokens, 0);
    assert!(result.is_ok());
    let (spanned_str, _) = result.unwrap();
    assert_eq!(spanned_str.inner(), "test_name");
    assert!(!spanned_str.span().is_empty());

    let tokens = parse_tokens("Component");
    let result = raw_identifier(&tokens, 0);
    assert!(result.is_ok());
    let (spanned_str, _) = result.unwrap();
    assert_eq!(spanned_str.inner(), "Component");
}

#[test]
fn test_identifier() {
    let tokens = parse_tokens("test_id");
    let result = identifier(&tokens, 0);
    assert!(result.is_ok());
    let (spanned_id, _) = result.unwrap();
    assert_eq!(*spanned_id.inner(), "test_id");
}

#[test]
fn test_string_literal() {
    let tokens = parse_tokens("\"hello world\"");
    let result = string_literal(&tokens, 0);
    assert!(result.is_ok());
    assert_eq!(result.unwrap().0.inner(), "hello world");
}

#[test]
fn test_nested_identifier() {
    let tokens = parse_tokens("parent::child::grandchild");
    let result = nested_identifier(&tokens, 0);
    assert!(result.is_ok());
    let (spanned_id, _) = result.unwrap();
    assert_eq!(*spanned_id.inner(), "parent::child::grandchild");
}

#[test]
fn test_ws_comment_function() {
    let tokens = parse_tokens(" ");
    assert!(ws1(&tokens, 0).is_ok());

    let tokens = parse_tokens("\t");
    assert!(ws1(&tokens, 0).is_ok());

    let tokens = parse_tokens("// this is a comment");
    assert!(ws1(&tokens, 0).is_ok());

    let tokens = parse_tokens("identifier");
    assert!(ws1(&tokens, 0).is_err());
}

#[test]
fn test_semicolon_function() {
    let tokens = parse_tokens(";");
    assert!(semicolon(&tokens, 0).is_ok());

    let tokens = parse_tokens("  ;");
    assert!(semicolon(&tokens, 0).is_ok());

    let tokens = parse_tokens(":");
    assert!(semicolon(&tokens, 0).is_err());
}

#[test]
fn test_identifier_function() {
    let tokens = parse_tokens("hello");
    let result = identifier(&tokens, 0);
    assert!(result.is_ok());
    let (spanned_id, _) = result.unwrap();
    assert_eq!(*spanned_id.inner(), "hello");
    assert!(!spanned_id.span().is_empty());

    let tokens = parse_tokens("Component");
    let result = identifier(&tokens, 0);
    assert!(result.is_ok());
    let (spanned_id, _) = result.unwrap();
    assert_eq!(*spanned_id.inner(), "Component");

    let tokens = parse_tokens("->");
    assert!(identifier(&tokens, 0).is_err());
}

#[test]
fn test_nested_identifier_function() {
    let tokens = parse_tokens("simple");
    let result = nested_identifier(&tokens, 0);
    assert!(result.is_ok());
    let (spanned_id, _) = result.unwrap();
    assert_eq!(*spanned_id.inner(), "simple");
    assert!(!spanned_id.span().is_empty());

    let tokens = parse_tokens("parent::child");
    let result = nested_identifier(&tokens, 0);
    assert!(result.is_ok());
    let (spanned_id, _) = result.unwrap();
    assert_eq!(*spanned_id.inner(), "parent::child");
}

#[test]
fn test_string_literal_function() {
    let tokens = parse_tokens("\"hello\"");
    let result = string_literal(&tokens, 0);
    assert!(result.is_ok());
    assert_eq!(result.unwrap().0.inner(), "hello");

    let tokens = parse_tokens("\"hello\\nworld\"");
    let result = string_literal(&tokens, 0);
    assert!(result.is_ok());
    assert_eq!(result.unwrap().0.inner(), "hello\nworld");

    let tokens = parse_tokens("identifier");
    assert!(string_literal(&tokens, 0).is_err());
}

// ---------------------------------------------------------------------------
// Attributes and type specifications
// ---------------------------------------------------------------------------

#[test]
fn test_attribute_function() {
    let tokens = parse_tokens("color=\"red\"");
    let result = attribute(&tokens, 0);
    assert!(result.is_ok());
    let (attr, _) = result.unwrap();
    assert_eq!(attr.name.inner(), "color");
    assert_eq!(text(&attr.value), Some("red"));

    let tokens = parse_tokens("stroke=RedStroke");
    let result = attribute(&tokens, 0);
    assert!(result.is_ok());
    let (attr, _) = result.unwrap();
    assert_eq!(attr.name.inner(), "stroke");
    if let AttributeValue::TypeSpec(type_spec) = &attr.value {
        assert_eq!(*type_spec.base_type.as_ref().unwrap().inner(), "RedStroke");
        assert_eq!(type_spec.attributes.len(), 0);
    } else {
        panic!("Expected TypeSpec for stroke=RedStroke");
    }

    let tokens = parse_tokens("width=2.5");
    let result = attribute(&tokens, 0);
    assert!(result.is_ok());
    let (attr, _) = result.unwrap();
    assert_eq!(attr.name.inner(), "width");
    assert_eq!(number(&attr.value), Some(2.5));
}

#[test]
fn test_nested_attribute_parsing() {
    let tokens = parse_tokens("text=[font_size=12, padding=6.5]");
    let result = attribute(&tokens, 0);
    assert!(result.is_ok());
    let (attr, _) = result.unwrap();
    assert_eq!(attr.name.inner(), "text");
    if let AttributeValue::TypeSpec(type_spec) = &attr.value {
        let nested_attrs = &type_spec.attributes;
        assert_eq!(nested_attrs.len(), 2);
        assert_eq!(nested_attrs[0].name.inner(), "font_size");
        assert_eq!(number(&nested_attrs[0].value), Some(12.0));
        assert_eq!(nested_attrs[1].name.inner(), "padding");
        assert_eq!(number(&nested_attrs[1].value), Some(6.5));
    } else {
        panic!("Expected nested attributes");
    }

    let tokens = parse_tokens("text=[]");
    let result = attribute(&tokens, 0);
    assert!(result.is_ok());
    let (attr, _) = result.unwrap();
    assert_eq!(attr.name.inner(), "text");
    if let AttributeValue::Empty = &attr.value {
        assert_eq!(attr.value.as_type_spec().unwrap().attributes.len(), 0);
    } else {
        panic!("Expected Empty attribute value for text=[]");
    }

    let tokens = parse_tokens("text=[font_size=16]");
    let result = attribute(&tokens, 0);
    assert!(result.is_ok());
    let (attr, _) = result.unwrap();
    if let AttributeValue::TypeSpec(type_spec) = &attr.value {
        let nested_attrs = &type_spec.attributes;
        assert_eq!(nested_attrs.len(), 1);
        assert_eq!(nested_attrs[0].name.inner(), "font_size");
        assert_eq!(number(&nested_attrs[0].value), Some(16.0));
    } else {
        panic!("Expected nested attributes");
    }

    let tokens = parse_tokens("text=[font_family=\"Arial\", font_size=14]");
    let result = attribute(&tokens, 0);
    assert!(result.is_ok());
    let (attr, _) = result.unwrap();
    if let AttributeValue::TypeSpec(type_spec) = &attr.value {
        let nested_attrs = &type_spec.attributes;
        assert_eq!(nested_attrs.len(), 2);
        assert_eq!(nested_attrs[0].name.inner(), "font_family");
        assert_eq!(text(&nested_attrs[0].value), Some("Arial"));
        assert_eq!(nested_attrs[1].name.inner(), "font_size");
        assert_eq!(number(&nested_attrs[1].value), Some(14.0));
    } else {
        panic!("Expected nested attributes");
    }
}

#[test]
fn test_nested_attribute_whitespace() {
    let tokens = parse_tokens("text=[ font_size = 12 , padding = 6.5 ]");
    let result = attribute(&tokens, 0);
    assert!(result.is_ok());
    let (attr, _) = result.unwrap();
    if let AttributeValue::TypeSpec(type_spec) = &attr.value {
        let nested_attrs = &type_spec.attributes;
        assert_eq!(nested_attrs.len(), 2);
        assert_eq!(nested_attrs[0].name.inner(), "font_size");
        assert_eq!(number(&nested_attrs[0].value), Some(12.0));
        assert_eq!(nested_attrs[1].name.inner(), "padding");
        assert_eq!(number(&nested_attrs[1].value), Some(6.5));
    } else {
        panic!("Expected nested attributes");
    }
}

#[test]
fn test_nested_attribute_error_handling() {
    let tokens = parse_tokens("text=[font_size=12");
    assert!(attribute(&tokens, 0).is_err());

    let tokens = parse_tokens("text=[font_size 12]");
    assert!(attribute(&tokens, 0).is_err());

    let tokens = parse_tokens("text=[font_size=]");
    assert!(attribute(&tokens, 0).is_err());

    let tokens = parse_tokens("text=[,font_size=12]");
    assert!(attribute(&tokens, 0).is_err());

    let tokens = parse_tokens("text=[font_size=12,]");
    assert!(attribute(&tokens, 0).is_err());

    let tokens = parse_tokens("text=[style=[curved=true]]");
    assert!(attribute(&tokens, 0).is_ok());
}

#[test]
fn test_text_attribute_parsing() {
    let tokens = parse_tokens(
        "text=[font_size=16, font_family=\"Arial\", background_color=\"white\", padding=8.0]",
    );
    let result = attribute(&tokens, 0);
    assert!(result.is_ok());
    let (attr, _) = result.unwrap();
    assert_eq!(attr.name.inner(), "text");
    if let AttributeValue::TypeSpec(type_spec) = &attr.value {
        let nested_attrs = &type_spec.attributes;
        assert_eq!(nested_attrs.len(), 4);
        assert_eq!(nested_attrs[0].name.inner(), "font_size");
        assert_eq!(number(&nested_attrs[0].value), Some(16.0));
        assert_eq!(nested_attrs[1].name.inner(), "font_family");
        assert_eq!(text(&nested_attrs[1].value), Some("Arial"));
        assert_eq!(nested_attrs[2].name.inner(), "background_color");
        assert_eq!(text(&nested_attrs[2].value), Some("white"));
        assert_eq!(nested_attrs[3].name.inner(), "padding");
        assert_eq!(number(&nested_attrs[3].value), Some(8.0));
    } else {
        panic!("Expected nested text attributes");
    }
}

#[test]
fn test_text_attribute_minimal_cases() {
    let tokens = parse_tokens("text=[]");
    let result = attribute(&tokens, 0);
    assert!(result.is_ok());
    let (attr, _) = result.unwrap();
    assert_eq!(attr.name.inner(), "text");
    if let AttributeValue::Empty = &attr.value {
        assert_eq!(attr.value.as_type_spec().unwrap().attributes.len(), 0);
    } else {
        panic!("Expected Empty attribute value for text=[]");
    }

    let tokens = parse_tokens("text=[font_size=20]");
    let result = attribute(&tokens, 0);
    assert!(result.is_ok());
    let (attr, _) = result.unwrap();
    if let AttributeValue::TypeSpec(type_spec) = &attr.value {
        let nested_attrs = &type_spec.attributes;
        assert_eq!(nested_attrs.len(), 1);
        assert_eq!(nested_attrs[0].name.inner(), "font_size");
        assert_eq!(number(&nested_attrs[0].value), Some(20.0));
    } else {
        panic!("Expected single text attribute");
    }

    let tokens = parse_tokens("text=[ font_size = 14 , font_family = \"Helvetica\" ]");
    let result = attribute(&tokens, 0);
    assert!(result.is_ok());
    let (attr, _) = result.unwrap();
    if let AttributeValue::TypeSpec(type_spec) = &attr.value {
        let nested_attrs = &type_spec.attributes;
        assert_eq!(nested_attrs.len(), 2);
        assert_eq!(nested_attrs[0].name.inner(), "font_size");
        assert_eq!(nested_attrs[1].name.inner(), "font_family");
    } else {
        panic!("Expected text attributes with whitespace");
    }
}

#[test]
fn test_text_attribute_type_combinations() {
    let tokens = parse_tokens(
        "text=[font_size=12, font_family=\"Courier\", background_color=\"#ff0000\", padding=5.5]",
    );
    let result = attribute(&tokens, 0);
    assert!(result.is_ok());
    let (attr, _) = result.unwrap();
    if let AttributeValue::TypeSpec(type_spec) = &attr.value {
        let nested_attrs = &type_spec.attributes;
        assert_eq!(nested_attrs.len(), 4);
        assert!(matches!(&nested_attrs[0].value, AttributeValue::Float(_)));
        assert!(matches!(&nested_attrs[1].value, AttributeValue::String(_)));
        assert!(matches!(&nested_attrs[2].value, AttributeValue::String(_)));
        assert!(matches!(&nested_attrs[3].value, AttributeValue::Float(_)));
        assert_eq!(number(&nested_attrs[0].value), Some(12.0));
        assert_eq!(text(&nested_attrs[1].value), Some("Courier"));
        assert_eq!(text(&nested_attrs[2].value), Some("#ff0000"));
        assert_eq!(number(&nested_attrs[3].value), Some(5.5));
    } else {
        panic!("Expected text attributes with various types");
    }
}

#[test]
fn test_wrapped_attributes_function() {
    let tokens = parse_tokens("[]");
    let result = orrery::parser::wrapped_attributes(&tokens, 0);
    assert!(result.is_ok());
    assert!(result.unwrap().0.is_empty());

    let tokens = parse_tokens("[color=\"red\"]");
    let result = orrery::parser::wrapped_attributes(&tokens, 0);
    assert!(result.is_ok());
    let (attrs, _) = result.unwrap();
    assert_eq!(attrs.len(), 1);
    assert_eq!(attrs[0].name.inner(), "color");
}

#[test]
fn test_type_definition_function() {
    let tokens = parse_tokens("type MyType = Rectangle;");
    let result = type_definition(&tokens, 0);
    assert!(result.is_ok());
    let (typedef, _) = result.unwrap();
    assert_eq!(*typedef.name.inner(), "MyType");
    assert_eq!(*typedef.type_spec.base_type.as_ref().unwrap().inner(), "Rectangle");

    let tokens = parse_tokens("MyType = Rectangle;");
    assert!(type_definition(&tokens, 0).is_err());
}

#[test]
fn test_type_spec_function() {
    let tokens = parse_tokens("Rectangle");
    let result = type_spec(&tokens, 0);
    assert!(result.is_ok(), "TypeName should parse");
    let (spec, _) = result.unwrap();
    assert!(spec.base_type.is_some());
    assert_eq!(*spec.base_type.unwrap().inner(), "Rectangle");
    assert!(spec.attributes.is_empty());

    let tokens = parse_tokens("Rectangle[fill_color=\"blue\"]");
    let result = type_spec(&tokens, 0);
    assert!(result.is_ok(), "TypeName[single attribute] should parse");
    let (spec, _) = result.unwrap();
    assert!(spec.base_type.is_some());
    assert_eq!(*spec.base_type.unwrap().inner(), "Rectangle");
    assert_eq!(spec.attributes.len(), 1);
    assert_eq!(spec.attributes[0].name.inner(), "fill_color");

    let tokens = parse_tokens("Service[fill=\"blue\", size=100, active=1]");
    let result = type_spec(&tokens, 0);
    assert!(result.is_ok(), "TypeName[multiple attributes] should parse");
    let (spec, _) = result.unwrap();
    assert!(spec.base_type.is_some());
    assert_eq!(*spec.base_type.unwrap().inner(), "Service");
    assert_eq!(spec.attributes.len(), 3);
    assert_eq!(spec.attributes[0].name.inner(), "fill");
    assert_eq!(spec.attributes[1].name.inner(), "size");
    assert_eq!(spec.attributes[2].name.inner(), "active");

    let tokens = parse_tokens("Rectangle[text=[font=\"Arial\", size=12]]");
    let result = type_spec(&tokens, 0);
    assert!(result.is_ok(), "TypeName[nested attributes] should parse");
    let (spec, _) = result.unwrap();
    assert!(spec.base_type.is_some());
    assert_eq!(*spec.base_type.as_ref().unwrap().inner(), "Rectangle");
    assert_eq!(spec.attributes.len(), 1);
    assert_eq!(spec.attributes[0].name.inner(), "text");
    match &spec.attributes[0].value {
        AttributeValue::TypeSpec(type_spec) => {
            let nested = &type_spec.attributes;
            assert_eq!(nested.len(), 2);
            assert_eq!(nested[0].name.inner(), "font");
            assert_eq!(nested[1].name.inner(), "size");
        }
        _ => panic!("Expected nested attributes"),
    }

    let tokens = parse_tokens("Rectangle[]");
    let result = type_spec(&tokens, 0);
    assert!(result.is_ok(), "TypeName[] should parse");
    let (spec, _) = result.unwrap();
    assert!(spec.base_type.is_some());
    assert_eq!(*spec.base_type.unwrap().inner(), "Rectangle");
    assert!(spec.attributes.is_empty());

    let tokens = parse_tokens("[fill_color=\"blue\"]");
    let result = type_spec(&tokens, 0);
    assert!(result.is_err(), "type_spec requires TypeName - [attributes] alone should fail");
}

#[test]
fn test_invocation_type_spec_function() {
    let tokens = parse_tokens("@Arrow");
    let result = invocation_type_spec(&tokens, 0);
    assert!(result.is_ok(), "@TypeName should parse");
    let (spec, _) = result.unwrap();
    assert!(spec.base_type.is_some());
    assert_eq!(*spec.base_type.unwrap().inner(), "Arrow");
    assert!(spec.attributes.is_empty());

    let tokens = parse_tokens("@Arrow[color=\"red\"]");
    let result = invocation_type_spec(&tokens, 0);
    assert!(result.is_ok(), "@TypeName[single attribute] should parse");
    let (spec, _) = result.unwrap();
    assert!(spec.base_type.is_some());
    assert_eq!(*spec.base_type.unwrap().inner(), "Arrow");
    assert_eq!(spec.attributes.len(), 1);
    assert_eq!(spec.attributes[0].name.inner(), "color");

    let tokens = parse_tokens("@Arrow[color=\"red\", width=2, style=\"dashed\"]");
    let result = invocation_type_spec(&tokens, 0);
    assert!(result.is_ok(), "@TypeName[multiple attributes] should parse");
    let (spec, _) = result.unwrap();
    assert!(spec.base_type.is_some());
    assert_eq!(*spec.base_type.unwrap().inner(), "Arrow");
    assert_eq!(spec.attributes.len(), 3);
    assert_eq!(spec.attributes[0].name.inner(), "color");
    assert_eq!(spec.attributes[1].name.inner(), "width");
    assert_eq!(spec.attributes[2].name.inner(), "style");

    let tokens = parse_tokens("@Arrow[stroke=[color=\"blue\", width=3]]");
    let result = invocation_type_spec(&tokens, 0);
    assert!(result.is_ok(), "@TypeName[nested attributes] should parse");
    let (spec, _) = result.unwrap();
    assert!(spec.base_type.is_some());
    assert_eq!(*spec.base_type.as_ref().unwrap().inner(), "Arrow");
    assert_eq!(spec.attributes.len(), 1);
    assert_eq!(spec.attributes[0].name.inner(), "stroke");
    match &spec.attributes[0].value {
        AttributeValue::TypeSpec(type_spec) => {
            let nested = &type_spec.attributes;
            assert_eq!(nested.len(), 2);
            assert_eq!(nested[0].name.inner(), "color");
            assert_eq!(nested[1].name.inner(), "width");
        }
        _ => panic!("Expected nested attributes"),
    }

    let tokens = parse_tokens("[color=\"red\"]");
    let result = invocation_type_spec(&tokens, 0);
    assert!(result.is_ok(), "[single attribute] without @ should parse (anonymous)");
    let (spec, _) = result.unwrap();
    assert!(spec.base_type.is_none());
    assert_eq!(spec.attributes.len(), 1);
    assert_eq!(spec.attributes[0].name.inner(), "color");

    let tokens = parse_tokens("[style=\"dashed\", width=2, color=\"blue\"]");
    let result = invocation_type_spec(&tokens, 0);
    assert!(result.is_ok(), "[multiple attributes] without @ should parse");
    let (spec, _) = result.unwrap();
    assert!(spec.base_type.is_none());
    assert_eq!(spec.attributes.len(), 3);
    assert_eq!(spec.attributes[0].name.inner(), "style");
    assert_eq!(spec.attributes[1].name.inner(), "width");
    assert_eq!(spec.attributes[2].name.inner(), "color");

    let tokens = parse_tokens("[stroke=[color=\"green\", width=1.5]]");
    let result = invocation_type_spec(&tokens, 0);
    assert!(result.is_ok(), "[nested attributes] should parse");
    let (spec, _) = result.unwrap();
    assert!(spec.base_type.is_none());
    assert_eq!(spec.attributes.len(), 1);
    match &spec.attributes[0].value {
        AttributeValue::TypeSpec(type_spec) => {
            assert_eq!(type_spec.attributes.len(), 2);
        }
        _ => panic!("Expected nested attributes"),
    }

    let tokens = parse_tokens("[]");
    let result = invocation_type_spec(&tokens, 0);
    assert!(result.is_ok(), "[] should parse as empty anonymous type");
    let (spec, _) = result.unwrap();
    assert!(spec.base_type.is_none());
    assert!(spec.attributes.is_empty());

    let tokens = parse_tokens("server");
    let result = invocation_type_spec(&tokens, 0);
    assert!(result.is_ok(), "Nothing should return empty TypeSpec");
    let (spec, _) = result.unwrap();
    assert!(spec.base_type.is_none());
    assert!(spec.attributes.is_empty());

    let tokens = parse_tokens("@[color=\"red\"]");
    let result = invocation_type_spec(&tokens, 0);
    assert!(result.is_err(), "@[attributes] should fail - TypeName required after @");
}

#[test]
fn test_relation_type_function() {
    let tokens = parse_tokens("->");
    let result = relation_type(&tokens, 0);
    assert!(result.is_ok());
    assert_eq!(result.unwrap().0, "->");

    let tokens = parse_tokens("<-");
    let result = relation_type(&tokens, 0);
    assert!(result.is_ok());
    assert_eq!(result.unwrap().0, "<-");

    let tokens = parse_tokens("=");
    assert!(relation_type(&tokens, 0).is_err());
}

#[test]
fn test_identifiers_empty() {
    let tokens = parse_tokens("[]");
    let result = attribute_value(&tokens, 0);
    assert!(result.is_ok(), "Failed to parse empty brackets");
    if let (AttributeValue::Empty, _) = result.unwrap() {
    } else {
        panic!("Expected Empty attribute value");
    }
}

#[test]
fn test_identifiers_single() {
    let tokens = parse_tokens("[component]");
    let result = identifiers(&tokens, 0);
    assert!(result.is_ok(), "Failed to parse single identifier");
    let (ids, _) = result.unwrap();
    assert_eq!(ids.len(), 1);
    assert_eq!(*ids[0].inner(), "Component");
}

#[test]
fn test_identifiers_multiple() {
    let tokens = parse_tokens("[client, server, database]");
    let result = identifiers(&tokens, 0);
    assert!(result.is_ok(), "Failed to parse multiple identifiers");
    let (ids, _) = result.unwrap();
    assert_eq!(ids.len(), 3);
    assert_eq!(*ids[0].inner(), "client");
    assert_eq!(*ids[1].inner(), "server");
    assert_eq!(*ids[2].inner(), "database");
}

#[test]
fn test_identifiers_nested() {
    let tokens = parse_tokens("[frontend::app, backend::api]");
    let result = identifiers(&tokens, 0);
    assert!(result.is_ok(), "Failed to parse nested identifiers");
    let (ids, _) = result.unwrap();
    assert_eq!(ids.len(), 2);
    assert_eq!(*ids[0].inner(), "frontend::app");
    assert_eq!(*ids[1].inner(), "backend::api");
}

#[test]
fn test_identifiers_with_whitespace() {
    let tokens = parse_tokens("[ client , server ]");
    let result = identifiers(&tokens, 0);
    assert!(result.is_ok(), "Failed to parse identifiers with whitespace");
    let (ids, _) = result.unwrap();
    assert_eq!(ids.len(), 2);
    assert_eq!(*ids[0].inner(), "client");
    assert_eq!(*ids[1].inner(), "server");
}

// ---------------------------------------------------------------------------
// Relations
// ---------------------------------------------------------------------------

#[test]
fn test_relation_with_named_type() {
    let tokens = parse_tokens("a -> @Arrow b;");
    let result = relation(&tokens, 0);
    assert!(result.is_ok(), "Relation with @TypeName should parse");
    match result.unwrap().0 {
        Element::Relation { type_spec, .. } => {
            assert!(type_spec.base_type.is_some());
            assert_eq!(*type_spec.base_type.unwrap().inner(), "Arrow");
            assert!(type_spec.attributes.is_empty());
        }
        _ => panic!("Expected Relation element"),
    }
}

#[test]
fn test_relation_with_named_type_and_attributes() {
    let tokens = parse_tokens("a -> @Arrow[color=\"red\", width=2] b;");
    let result = relation(&tokens, 0);
    assert!(result.is_ok(), "Relation with @TypeName[attrs] should parse");
    match result.unwrap().0 {
        Element::Relation { type_spec, .. } => {
            assert!(type_spec.base_type.is_some());
            assert_eq!(*type_spec.base_type.as_ref().unwrap().inner(), "Arrow");
            assert_eq!(type_spec.attributes.len(), 2);
            assert_eq!(type_spec.attributes[0].name.inner(), "color");
            assert_eq!(type_spec.attributes[1].name.inner(), "width");
        }
        _ => panic!("Expected Relation element"),
    }
}

#[test]
fn test_relation_with_anonymous_attributes() {
    let tokens = parse_tokens("a -> [style=\"dashed\", width=3] b;");
    let result = relation(&tokens, 0);
    assert!(result.is_ok(), "Relation with [attrs] should parse");
    match result.unwrap().0 {
        Element::Relation { type_spec, .. } => {
            assert!(type_spec.base_type.is_none(), "Anonymous type has no name");
            assert_eq!(type_spec.attributes.len(), 2);
            assert_eq!(type_spec.attributes[0].name.inner(), "style");
            assert_eq!(type_spec.attributes[1].name.inner(), "width");
        }
        _ => panic!("Expected Relation element"),
    }
}

#[test]
fn test_relation_with_sugar_syntax() {
    let tokens = parse_tokens("a -> b;");
    let result = relation(&tokens, 0);
    assert!(result.is_ok(), "Relation with sugar syntax should parse");
    match result.unwrap().0 {
        Element::Relation { type_spec, .. } => {
            assert!(type_spec.base_type.is_none());
            assert!(type_spec.attributes.is_empty());
        }
        _ => panic!("Expected Relation element"),
    }
}

// ---------------------------------------------------------------------------
// Activation
// ---------------------------------------------------------------------------

#[test]
fn test_activate_statement_parsing_basic() {
    let tokens = parse_tokens("activate user;");
    let elem = activate_statement(&tokens, 0);
    assert!(elem.is_ok(), "activate statement should parse");
    match elem.unwrap().0 {
        Element::Activate { component, .. } => {
            assert_eq!(*component.inner(), "user");
            let id_span = first_identifier_span(&tokens);
            assert_eq!(component.span(), id_span, "component span should match identifier span");
        }
        other => panic!("expected Activate element, got {:?}", other),
    }
}

#[test]
fn test_deactivate_statement_parsing_basic() {
    let tokens = parse_tokens("deactivate server;");
    let elem = deactivate_statement(&tokens, 0);
    assert!(elem.is_ok(), "deactivate statement should parse");
    match elem.unwrap().0 {
        Element::Deactivate { component } => {
            assert_eq!(*component.inner(), "server");
            let id_span = first_identifier_span(&tokens);
            assert_eq!(component.span(), id_span, "component span should match identifier span");
        }
        other => panic!("expected Deactivate element, got {:?}", other),
    }
}

#[test]
fn test_activate_statement_whitespace_and_comments() {
    let tokens = parse_tokens("activate // comment\n  user   ;");
    let elem = activate_statement(&tokens, 0);
    assert!(elem.is_ok(), "activate with comments/whitespace should parse");
    match elem.unwrap().0 {
        Element::Activate { component, .. } => {
            assert_eq!(*component.inner(), "user");
        }
        other => panic!("expected Activate element, got {:?}", other),
    }
}

#[test]
fn test_deactivate_statement_whitespace_and_comments() {
    let tokens = parse_tokens("deactivate  \n  user // trailing\n ;");
    let elem = deactivate_statement(&tokens, 0);
    assert!(elem.is_ok(), "deactivate with comments/whitespace should parse");
    match elem.unwrap().0 {
        Element::Deactivate { component } => {
            assert_eq!(*component.inner(), "user");
        }
        other => panic!("expected Deactivate element, got {:?}", other),
    }
}

#[test]
fn test_activate_statement_missing_semicolon_error() {
    let tokens = parse_tokens("activate user");
    let elem = activate_statement(&tokens, 0);
    assert!(elem.is_err(), "missing semicolon should fail");
}

#[test]
fn test_deactivate_statement_missing_identifier_error() {
    let tokens = parse_tokens("deactivate ;");
    let elem = deactivate_statement(&tokens, 0);
    assert!(elem.is_err(), "missing identifier should fail");
}

#[test]
fn test_activate_statement_span_accuracy_nested_identifier() {
    let tokens = parse_tokens("activate parent::child;");
    let elem = activate_statement(&tokens, 0);
    assert!(elem.is_ok(), "activate with nested identifier should parse");
    match elem.unwrap().0 {
        Element::Activate { component, .. } => {
            assert_eq!(*component.inner(), "parent::child");
            let expected_span = nested_identifier_span(&tokens);
            assert_eq!(
                component.span(),
                expected_span,
                "component span should cover from first to last identifier"
            );
        }
        other => panic!("expected Activate element, got {:?}", other),
    }
}

#[test]
fn test_activate_statement_with_type_spec() {
    let tokens = parse_tokens("activate @MyType user;");
    let elem = activate_statement(&tokens, 0);
    assert!(elem.is_ok(), "activate with type_spec should parse");
    match elem.unwrap().0 {
        Element::Activate { component, type_spec } => {
            assert_eq!(*component.inner(), "user");
            assert_eq!(type_spec.base_type.as_ref().map(|id| id.inner().clone()), Some(Id::new("MyType")));
            assert!(type_spec.attributes.is_empty());
        }
        other => panic!("expected Activate element, got {:?}", other),
    }
}

#[test]
fn test_activate_statement_with_type_spec_and_attributes() {
    let tokens = parse_tokens("activate @MyType[color=\"red\"] user;");
    let elem = activate_statement(&tokens, 0);
    assert!(elem.is_ok(), "activate with type_spec and attributes should parse");
    match elem.unwrap().0 {
        Element::Activate { component, type_spec } => {
            assert_eq!(*component.inner(), "user");
            assert_eq!(type_spec.base_type.as_ref().map(|id| id.inner().clone()), Some(Id::new("MyType")));
            assert_eq!(type_spec.attributes.len(), 1);
            assert_eq!(type_spec.attributes[0].name.inner(), "color");
        }
        other => panic!("expected Activate element, got {:?}", other),
    }
}

#[test]
fn test_activate_statement_without_type_spec() {
    let tokens = parse_tokens("activate user;");
    let elem = activate_statement(&tokens, 0);
    assert!(elem.is_ok(), "activate without type_spec should parse");
    match elem.unwrap().0 {
        Element::Activate { component, type_spec } => {
            assert_eq!(*component.inner(), "user");
            assert!(type_spec.base_type.is_none());
            assert!(type_spec.attributes.is_empty());
        }
        other => panic!("expected Activate element, got {:?}", other),
    }
}

#[test]
fn test_deactivate_statement_span_accuracy_nested_identifier() {
    let tokens = parse_tokens("deactivate a::b::c;");
    let elem = deactivate_statement(&tokens, 0);
    assert!(elem.is_ok(), "deactivate with nested identifier should parse");
    match elem.unwrap().0 {
        Element::Deactivate { component } => {
            assert_eq!(*component.inner(), "a::b::c");
            let expected_span = nested_identifier_span(&tokens);
            assert_eq!(
                component.span(),
                expected_span,
                "component span should cover from first to last identifier"
            );
        }
        other => panic!("expected Deactivate element, got {:?}", other),
    }
}

#[test]
fn test_activate_block_parsing() {
    let tokens = parse_tokens(
        "activate user {\n            user -> server: \"Request\";\n        };",
    );
    let result = activate_block(&tokens, 0);
    assert!(result.is_ok(), "Failed to parse activate block: {:?}", result);
    let (element, _) = result.unwrap();
    if let Element::ActivateBlock { component, elements, .. } = element {
        assert_eq!(*component.inner(), "user");
        assert_eq!(elements.len(), 1);
    } else {
        panic!("Expected ActivateBlock element, got {:?}", element);
    }
}

#[test]
fn test_activate_block_missing_identifier() {
    let tokens = parse_tokens("activate {\n            user -> server;\n        };");
    let result = activate_block(&tokens, 0);
    assert!(result.is_err(), "Should fail when identifier is missing");
}

#[test]
fn test_activate_block_missing_opening_brace() {
    let tokens = parse_tokens("activate user\n            user -> server;\n        };");
    let result = activate_block(&tokens, 0);
    assert!(result.is_err(), "Should fail when opening brace is missing");
}

#[test]
fn test_activate_block_missing_closing_brace() {
    let tokens = parse_tokens("activate user {\n            user -> server;");
    let result = activate_block(&tokens, 0);
    assert!(result.is_err(), "Should fail when closing brace is missing");
}

#[test]
fn test_activate_block_missing_semicolon() {
    let tokens = parse_tokens("activate user {\n            user -> server;\n        }");
    let result = activate_block(&tokens, 0);
    assert!(result.is_err(), "Should fail when semicolon is missing");
}

#[test]
fn test_activate_block_empty_block() {
    let tokens = parse_tokens("activate user {\n        };");
    let result = activate_block(&tokens, 0);
    assert!(result.is_ok(), "Empty activate block should be valid");
    if let Element::ActivateBlock { component, elements, .. } = result.unwrap().0 {
        assert_eq!(*component.inner(), "user");
        assert_eq!(elements.len(), 0);
    } else {
        panic!("Expected ActivateBlock element");
    }
}

#[test]
fn test_nested_activate_blocks() {
    let tokens = parse_tokens(
        "activate user {\n            user -> server: \"Request\";\n            activate server {\n                server -> database: \"Query\";\n            };\n        };",
    );
    let result = activate_block(&tokens, 0);
    assert!(result.is_ok(), "Nested activate blocks should be valid");
    if let Element::ActivateBlock { component, elements, .. } = result.unwrap().0 {
        assert_eq!(*component.inner(), "user");
        assert_eq!(elements.len(), 2);
        let has_nested_activate =
            elements.iter().any(|el| matches!(el, Element::ActivateBlock { .. }));
        assert!(has_nested_activate, "Should contain nested activate block");
    } else {
        panic!("Expected ActivateBlock element");
    }
}

#[test]
fn test_activate_block_with_components() {
    let tokens = parse_tokens(
        "activate user {\n            service: Rectangle;\n            user -> service: \"Call\";\n        };",
    );
    let result = activate_block(&tokens, 0);
    assert!(result.is_ok(), "Activate block with components should be valid");
    if let Element::ActivateBlock { component, elements, .. } = result.unwrap().0 {
        assert_eq!(*component.inner(), "user");
        assert_eq!(elements.len(), 2);
    } else {
        panic!("Expected ActivateBlock element");
    }
}

// ---------------------------------------------------------------------------
// Keyword blocks
// ---------------------------------------------------------------------------

#[test]
fn test_opt_block_parsing() {
    let tokens = parse_tokens(
        "opt \"user authenticated\" {\n            user -> profile: \"Load\";\n        };",
    );
    let result = single_block(&tokens, 0, SingleKind::Opt);
    assert!(result.is_ok(), "Failed to parse opt block: {:?}", result);
    let (element, _) = result.unwrap();
    if let Element::OptBlock { keyword_span, section, type_spec } = element {
        assert!(keyword_span.start() < keyword_span.end());
        assert_eq!(section.title.as_ref().unwrap().inner(), "user authenticated");
        assert_eq!(type_spec.attributes.len(), 0);
        assert_eq!(section.elements.len(), 1);
    } else {
        panic!("Expected OptBlock element, got {:?}", element);
    }
}

#[test]
fn test_opt_block_with_attributes() {
    let tokens = parse_tokens(
        "opt [background_color=\"#f0f0f0\", border_style=\"dashed\"] \"condition\" {\n            a -> b;\n        };",
    );
    let result = single_block(&tokens, 0, SingleKind::Opt);
    assert!(result.is_ok(), "Failed to parse opt block with attributes");
    if let Element::OptBlock { type_spec, .. } = result.unwrap().0 {
        assert_eq!(type_spec.attributes.len(), 2);
    } else {
        panic!("Expected OptBlock element");
    }
}

#[test]
fn test_opt_block_no_title() {
    let tokens = parse_tokens("opt {\n            a -> b;\n        };");
    let result = single_block(&tokens, 0, SingleKind::Opt);
    assert!(result.is_ok(), "Failed to parse opt block without title");
    if let Element::OptBlock { section, .. } = result.unwrap().0 {
        assert!(section.title.is_none());
    } else {
        panic!("Expected OptBlock element");
    }
}

#[test]
fn test_loop_block_parsing() {
    let tokens = parse_tokens(
        "loop \"for each item\" {\n            client -> server: \"Process\";\n        };",
    );
    let result = single_block(&tokens, 0, SingleKind::Loop);
    assert!(result.is_ok(), "Failed to parse loop block: {:?}", result);
    if let Element::LoopBlock { keyword_span, section, .. } = result.unwrap().0 {
        assert!(keyword_span.start() < keyword_span.end());
        assert_eq!(section.title.as_ref().unwrap().inner(), "for each item");
        assert_eq!(section.elements.len(), 1);
    } else {
        panic!("Expected LoopBlock element");
    }
}

#[test]
fn test_break_block_parsing() {
    let tokens = parse_tokens(
        "break \"timeout\" {\n            client -> server: \"Cancel\";\n        };",
    );
    let result = single_block(&tokens, 0, SingleKind::Break);
    assert!(result.is_ok(), "Failed to parse break block: {:?}", result);
    if let Element::BreakBlock { keyword_span, section, .. } = result.unwrap().0 {
        assert!(keyword_span.start() < keyword_span.end());
        assert_eq!(section.title.as_ref().unwrap().inner(), "timeout");
    } else {
        panic!("Expected BreakBlock element");
    }
}

#[test]
fn test_critical_block_parsing() {
    let tokens = parse_tokens(
        "critical \"database lock\" {\n            app -> db: \"UPDATE\";\n        };",
    );
    let result = single_block(&tokens, 0, SingleKind::Critical);
    assert!(result.is_ok(), "Failed to parse critical block: {:?}", result);
    if let Element::CriticalBlock { keyword_span, section, .. } = result.unwrap().0 {
        assert!(keyword_span.start() < keyword_span.end());
        assert_eq!(section.title.as_ref().unwrap().inner(), "database lock");
    } else {
        panic!("Expected CriticalBlock element");
    }
}

#[test]
fn test_alt_else_block_parsing() {
    let tokens = parse_tokens(
        "alt \"x > 0\" {\n            a -> b;\n        } else \"x < 0\" {\n            b -> a;\n        } else {\n            a -> a;\n        };",
    );
    let result = multi_block(&tokens, 0, MultiKind::Alt);
    assert!(result.is_ok(), "Failed to parse alt/else block: {:?}", result);
    if let Element::AltElseBlock { keyword_span, sections, .. } = result.unwrap().0 {
        assert!(keyword_span.start() < keyword_span.end());
        assert_eq!(sections.len(), 3);
        assert_eq!(sections[0].title.as_ref().unwrap().inner(), "x > 0");
        assert_eq!(sections[1].title.as_ref().unwrap().inner(), "x < 0");
        assert!(sections[2].title.is_none());
    } else {
        panic!("Expected AltElseBlock element");
    }
}

#[test]
fn test_alt_block_single_branch() {
    let tokens = parse_tokens("alt \"condition\" {\n            a -> b;\n        };");
    let result = multi_block(&tokens, 0, MultiKind::Alt);
    assert!(result.is_ok(), "Failed to parse alt block with single branch");
    if let Element::AltElseBlock { sections, .. } = result.unwrap().0 {
        assert_eq!(sections.len(), 1);
    } else {
        panic!("Expected AltElseBlock element");
    }
}

#[test]
fn test_par_block_parsing() {
    let tokens = parse_tokens(
        "par \"thread 1\" {\n            a -> b;\n        } par \"thread 2\" {\n            c -> d;\n        };",
    );
    let result = multi_block(&tokens, 0, MultiKind::Par);
    assert!(result.is_ok(), "Failed to parse par block: {:?}", result);
    if let Element::ParBlock { keyword_span, sections, .. } = result.unwrap().0 {
        assert!(keyword_span.start() < keyword_span.end());
        assert_eq!(sections.len(), 2);
        assert_eq!(sections[0].title.as_ref().unwrap().inner(), "thread 1");
        assert_eq!(sections[1].title.as_ref().unwrap().inner(), "thread 2");
    } else {
        panic!("Expected ParBlock element");
    }
}

#[test]
fn test_par_block_single_branch() {
    let tokens = parse_tokens("par \"single thread\" {\n            a -> b;\n        };");
    let result = multi_block(&tokens, 0, MultiKind::Par);
    assert!(result.is_ok(), "Failed to parse par block with single branch");
    if let Element::ParBlock { sections, .. } = result.unwrap().0 {
        assert_eq!(sections.len(), 1);
    } else {
        panic!("Expected ParBlock element");
    }
}

#[test]
fn test_nested_fragment_keywords() {
    let tokens = parse_tokens(
        "opt \"outer\" {\n            alt \"inner condition\" {\n                a -> b;\n            } else {\n                b -> a;\n            };\n        };",
    );
    let result = single_block(&tokens, 0, SingleKind::Opt);
    assert!(result.is_ok(), "Failed to parse nested fragment keywords");
    if let Element::OptBlock { section, .. } = result.unwrap().0 {
        assert_eq!(section.elements.len(), 1);
        if let Element::AltElseBlock { .. } = &section.elements[0] {
        } else {
            panic!("Expected nested AltElseBlock");
        }
    } else {
        panic!("Expected OptBlock element");
    }
}

#[test]
fn test_fragment_keyword_with_empty_body() {
    let tokens = parse_tokens("opt \"empty\" {\n        };");
    let result = single_block(&tokens, 0, SingleKind::Opt);
    assert!(result.is_ok(), "Failed to parse opt block with empty body");
    if let Element::OptBlock { section, .. } = result.unwrap().0 {
        assert_eq!(section.elements.len(), 0);
    } else {
        panic!("Expected OptBlock element");
    }
}

// ---------------------------------------------------------------------------
// Notes
// ---------------------------------------------------------------------------

#[test]
fn test_note_element_simple() {
    let tokens = parse_tokens("note: \"This is a simple note\";");
    let result = note_element(&tokens, 0);
    assert!(result.is_ok(), "Failed to parse simple note element");
    if let Element::Note(note) = result.unwrap().0 {
        assert_eq!(note.type_spec.attributes.len(), 0);
        assert_eq!(note.content.inner(), "This is a simple note");
    } else {
        panic!("Expected Note element");
    }
}

#[test]
fn test_note_element_with_attributes() {
    let tokens = parse_tokens("note [align=\"left\"]: \"Note with attributes\";");
    let result = note_element(&tokens, 0);
    assert!(result.is_ok(), "Failed to parse note with attributes");
    if let Element::Note(note) = result.unwrap().0 {
        assert_eq!(note.type_spec.attributes.len(), 1);
        assert_eq!(note.type_spec.attributes[0].name.inner(), "align");
        assert_eq!(note.content.inner(), "Note with attributes");
    } else {
        panic!("Expected Note element");
    }
}

#[test]
fn test_note_element_with_named_type() {
    let tokens = parse_tokens("note @WarningNote: \"Alert message\";");
    let result = note_element(&tokens, 0);
    assert!(result.is_ok(), "Failed to parse note with @TypeName");
    if let Element::Note(note) = result.unwrap().0 {
        assert!(note.type_spec.base_type.is_some());
        assert_eq!(*note.type_spec.base_type.as_ref().unwrap().inner(), "WarningNote");
        assert!(note.type_spec.attributes.is_empty());
        assert_eq!(note.content.inner(), "Alert message");
    } else {
        panic!("Expected Note element");
    }
}

#[test]
fn test_note_element_with_named_type_and_attributes() {
    let tokens = parse_tokens("note @InfoNote[color=\"blue\", size=12]: \"Information\";");
    let result = note_element(&tokens, 0);
    assert!(result.is_ok(), "Failed to parse note with @TypeName[attrs]");
    if let Element::Note(note) = result.unwrap().0 {
        assert!(note.type_spec.base_type.is_some());
        assert_eq!(*note.type_spec.base_type.as_ref().unwrap().inner(), "InfoNote");
        assert_eq!(note.type_spec.attributes.len(), 2);
        assert_eq!(note.type_spec.attributes[0].name.inner(), "color");
        assert_eq!(note.type_spec.attributes[1].name.inner(), "size");
        assert_eq!(note.content.inner(), "Information");
    } else {
        panic!("Expected Note element");
    }
}

#[test]
fn test_note_element_missing_semicolon() {
    let tokens = parse_tokens("note: \"Missing semicolon\"");
    let result = note_element(&tokens, 0);
    assert!(result.is_err(), "Should fail without semicolon");
}

#[test]
fn test_note_element_missing_content() {
    let tokens = parse_tokens("note [align=\"left\"]: ;");
    let result = note_element(&tokens, 0);
    assert!(result.is_err(), "Should fail without content");
}

#[test]
fn test_note_element_with_whitespace_and_comments() {
    let tokens = parse_tokens(
        "note  // comment\n        [align=\"right\"]  // another comment\n        :  // more comments\n        \"Content with spacing\"  ;  // final comment\n        ",
    );
    let result = note_element(&tokens, 0);
    assert!(result.is_ok(), "Failed to parse note with whitespace and comments");
    if let Element::Note(note) = &result.unwrap().0 {
        assert_eq!(note.type_spec.attributes.len(), 1);
        assert_eq!(note.type_spec.attributes[0].name.inner(), "align");
        assert_eq!(note.content.inner(), "Content with spacing");
    } else {
        panic!("Expected Note element");
    }
}

// ---------------------------------------------------------------------------
// Whole files
// ---------------------------------------------------------------------------

#[test]
fn test_simple_diagram() {
    let tokens = parse_tokens("diagram component;\n        app: Rectangle;");
    let result = build_diagram(&tokens);
    assert!(result.is_ok());
}

#[test]
fn test_relation() {
    let tokens = parse_tokens("diagram component;\n        frontend -> backend;");
    let result = build_diagram(&tokens);
    assert!(result.is_ok());
}

#[test]
fn test_complex_diagram() {
    let tokens = parse_tokens(
        "diagram component [layout=\"basic\"];\n        type CustomBox = Rectangle [color=\"blue\"];\n\n        frontend: CustomBox [label=\"Frontend\"];\n        backend: Rectangle;\n\n        frontend -> backend: \"API calls\";",
    );
    let result = build_diagram(&tokens);
    assert!(result.is_ok());
}

#[test]
fn test_note_in_complete_diagram() {
    let input = r#"diagram sequence;

        client: Rectangle;
        server: Rectangle;
        database: Rectangle;

        note: "This is a margin note";
        note [on=[client]]: "Note on client";

        client -> server: "Request";

        note [on=[server], align="right"]: "Processing request";

        server -> database: "Query";
        note [on=[server, database]]: "Note spanning multiple elements";

        database -> server: "Result";
        server -> client: "Response";
        "#;
    let tokens = parse_tokens(input);
    let result = build_diagram(&tokens);
    assert!(result.is_ok(), "Failed to parse diagram with notes");
    let diagram = result.unwrap().into_inner();
    let note_count = diagram.elements.iter().filter(|e| matches!(e, Element::Note(_))).count();
    assert_eq!(note_count, 4, "Expected 4 notes in diagram");
    if let Some(Element::Note(note)) =
        diagram.elements.iter().find(|e| matches!(e, Element::Note(_)))
    {
        assert_eq!(note.content.inner(), "This is a margin note");
        assert_eq!(note.type_spec.attributes.len(), 0, "Margin note should have no attributes");
    } else {
        panic!("Expected to find note element");
    }
    let notes_with_on = diagram
        .elements
        .iter()
        .filter_map(|e| match e {
            Element::Note(note) => Some(note),
            _ => None,
        })
        .filter(|note| note.type_spec.attributes.iter().any(|attr| attr.name.inner() == "on"))
        .count();
    assert_eq!(notes_with_on, 3, "Expected 3 notes with 'on' attribute");
}

#[test]
fn test_embedded_diagram_empty() {
    let tokens = parse_tokens(
        "diagram component;\ntype Service = Rectangle;\nauth_service: Service embed diagram sequence {};",
    );
    let result = build_diagram(&tokens);
    assert!(result.is_ok(), "Failed to parse embedded diagram: {:?}", result.err());
}

#[test]
fn test_embedded_diagram_with_elements() {
    let tokens = parse_tokens(
        "diagram component;\nauth_service: Rectangle embed diagram sequence {\n    client: Rectangle;\n    server: Rectangle;\n    client -> server;\n};",
    );
    let result = build_diagram(&tokens);
    assert!(result.is_ok(), "Failed to parse embedded diagram: {:?}", result.err());
}

// ---------------------------------------------------------------------------
// Error reports
// ---------------------------------------------------------------------------

#[test]
fn test_convert_error_consumed_tokens() {
    let tokens = vec![
        make_token(Token::Identifier("a".to_string()), 0, 1),
        make_token(Token::Arrow, 2, 2),
        make_token(Token::Identifier("b".to_string()), 5, 1),
    ];
    let err = PError {
        cut: true,
        contexts: vec![Context::StartOffset(3), Context::Label("semicolon")],
        pos: 3,
    };
    let result = convert_error(&err, &tokens);
    assert!(result.message().contains("unexpected token: expected semicolon"));
}

#[test]
fn test_convert_error_delimiter_at_position() {
    let tokens = vec![
        make_token(Token::Identifier("a".to_string()), 0, 1),
        make_token(Token::Semicolon, 1, 1),
        make_token(Token::RightBrace, 3, 1),
    ];
    let err = PError {
        cut: true,
        contexts: vec![Context::StartOffset(1), Context::Label("component")],
        pos: 2,
    };
    let result = convert_error(&err, &tokens);
    let span = result.labels()[0].span();
    assert_eq!(span.start(), 0);
    assert_eq!(span.end(), 2);
}

#[test]
fn test_convert_error_non_delimiter_at_position() {
    let tokens = vec![
        make_token(Token::Diagram, 0, 7),
        make_token(Token::Whitespace, 7, 1),
        make_token(Token::Component, 8, 9),
        make_token(Token::Semicolon, 17, 1),
        make_token(Token::Colon, 19, 1),
    ];
    let err = PError { cut: true, contexts: vec![Context::StartOffset(1)], pos: 4 };
    let result = convert_error(&err, &tokens);
    let span = result.labels()[0].span();
    assert_eq!(span.start(), 19);
    assert_eq!(span.end(), 20);
}

#[test]
fn test_convert_error_eof() {
    let tokens = vec![
        make_token(Token::Identifier("a".to_string()), 0, 1),
        make_token(Token::Arrow, 2, 2),
        make_token(Token::Whitespace, 4, 1),
    ];
    let err = PError {
        cut: true,
        contexts: vec![Context::StartOffset(0), Context::Label("semicolon")],
        pos: 3,
    };
    let result = convert_error(&err, &tokens);
    let span = result.labels()[0].span();
    assert_eq!(span.start(), 0);
    assert_eq!(span.end(), 4);
}

#[test]
fn test_convert_error_skip_whitespace() {
    let tokens = vec![
        make_token(Token::Whitespace, 0, 2),
        make_token(Token::Identifier("a".to_string()), 2, 1),
        make_token(Token::Whitespace, 3, 1),
        make_token(Token::Arrow, 4, 2),
        make_token(Token::Whitespace, 6, 1),
        make_token(Token::Identifier("b".to_string()), 7, 1),
        make_token(Token::Newline, 8, 1),
    ];
    let err = PError {
        cut: true,
        contexts: vec![Context::StartOffset(7), Context::Label("semicolon")],
        pos: 7,
    };
    let result = convert_error(&err, &tokens);
    let span = result.labels()[0].span();
    assert_eq!(span.start(), 2);
    assert_eq!(span.end(), 8);
}

#[test]
fn test_convert_error_no_start_offset_fallback() {
    let tokens = vec![
        make_token(Token::Identifier("a".to_string()), 0, 1),
        make_token(Token::Arrow, 2, 2),
    ];
    let err = PError { cut: true, contexts: vec![], pos: 2 };
    let result = convert_error(&err, &tokens);
    let span = result.labels()[0].span();
    assert_eq!(span.start(), 0);
    assert_eq!(span.end(), 4);
}

#[test]
fn test_convert_error_multiple_context_labels() {
    let tokens = vec![make_token(Token::Identifier("a".to_string()), 0, 1)];
    let err = PError {
        cut: true,
        contexts: vec![
            Context::StartOffset(1),
            Context::Label("semicolon"),
            Context::Label("component"),
        ],
        pos: 1,
    };
    let result = convert_error(&err, &tokens);
    assert!(result.message().contains("expected semicolon → expected component"));
}

// ---------------------------------------------------------------------------
// Further cases
// ---------------------------------------------------------------------------

#[test]
fn build_diagram_reads_header_elements_and_total_span() {
    let tokens = parse_tokens("diagram component;\napp: Rectangle;");
    let result = build_diagram(&tokens).expect("should parse");
    assert_eq!(result.span().start(), 0);
    assert_eq!(result.span().end(), 34);
    let file = result.into_inner();
    match &file.header {
        FileHeader::Diagram { kind, attributes } => {
            assert_eq!(*kind.inner(), DiagramKind::Component);
            assert!(attributes.is_empty());
        }
        _ => panic!("Expected a diagram header"),
    }
    assert_eq!(file.elements.len(), 1);
    match &file.elements[0] {
        Element::Component { name, type_spec, .. } => {
            assert_eq!(*name.inner(), "app");
            assert_eq!(*type_spec.base_type.as_ref().unwrap().inner(), "Rectangle");
        }
        other => panic!("Expected a component, got {:?}", other),
    }
}

#[test]
fn build_diagram_reports_leftover_statement() {
    let tokens = parse_tokens("diagram component;\nactivate user");
    let err = build_diagram(&tokens).expect_err("should fail");
    assert_eq!(err.code(), Some(ErrorCode::E100));
    assert_eq!(err.message(), "unexpected token: unexpected token or end of input");
    let span = err.labels()[0].span();
    assert_eq!((span.start(), span.end()), (19, 27));
    assert_eq!(err.help(), Some("check syntax and token positioning"));
}

#[test]
fn build_diagram_reports_missing_semicolon_after_relation() {
    let tokens = parse_tokens("diagram component;\na -> b");
    let err = build_diagram(&tokens).expect_err("should fail");
    assert_eq!(
        err.message(),
        "unexpected token: expected semicolon → expected semicolon after relation"
    );
}

#[test]
fn build_diagram_reports_missing_header() {
    let tokens = parse_tokens("app: Rectangle;");
    let err = build_diagram(&tokens).expect_err("should fail");
    assert_eq!(err.message(), "unexpected token: unexpected token or end of input");
    let span = err.labels()[0].span();
    assert_eq!((span.start(), span.end()), (0, 3));
}

#[test]
fn diagram_header_with_semicolon_reads_kind_and_attributes() {
    let tokens = parse_tokens("diagram sequence [layout=\"basic\"];");
    let ((kind, attributes), next) = diagram_header_with_semicolon(&tokens, 0).expect("should parse");
    assert_eq!(*kind.inner(), DiagramKind::Sequence);
    assert_eq!(attributes.len(), 1);
    assert_eq!(attributes[0].name.inner(), "layout");
    assert_eq!(next, tokens.len());

    let tokens = parse_tokens("diagram flow;");
    let err = diagram_header_with_semicolon(&tokens, 0).expect_err("should fail");
    assert!(matches!(err.contexts.last(), Some(Context::Label("diagram type"))));
}

#[test]
fn component_with_display_name_and_scope() {
    let tokens = parse_tokens("box as \"The Box\": Rectangle { inner: Oval; };");
    let (element, next) = orrery::parser::component_with_elements(&tokens, 0).expect("should parse");
    assert_eq!(next, tokens.len());
    match element {
        Element::Component { name, display_name, content, .. } => {
            assert_eq!(*name.inner(), "box");
            assert_eq!(display_name.unwrap().inner(), "The Box");
            match content {
                ComponentContent::Scope(es) => assert_eq!(es.len(), 1),
                other => panic!("Expected a scope, got {:?}", other),
            }
        }
        other => panic!("Expected a component, got {:?}", other),
    }
}

// ---------------------------------------------------------------------------
// Validation of parsed files
// ---------------------------------------------------------------------------

/// Parses a file and validates it.
fn parse_and_validate(input: &str) -> Result<(), Vec<orrery::error::Diagnostic>> {
    let tokens = parse_tokens(input);
    let ast = build_diagram(&tokens).expect("Failed to parse").into_inner();
    orrery::validate::validate(&ast)
}

#[test]
fn test_valid_note_sequence_diagram() {
    let input = r#"
        diagram sequence;
        client: Rectangle;
        server: Rectangle;

        note [on=[client], align="left"]: "Valid note";
        note [on=[server], align="right"]: "Another valid note";
        note [align="over"]: "Margin note";
        "#;
    let result = parse_and_validate(input);
    assert!(result.is_ok(), "Valid notes should pass validation");
}

#[test]
fn test_valid_note_component_diagram() {
    let input = r#"
        diagram component;
        api: Rectangle;
        db: Rectangle;

        note [on=[api], align="top"]: "Valid note";
        note [on=[db], align="bottom"]: "Another valid note";
        note [align="left"]: "Margin note";
        "#;
    let result = parse_and_validate(input);
    assert!(result.is_ok(), "Valid notes should pass validation");
}

#[test]
fn test_invalid_align_sequence_diagram() {
    let input = r#"
        diagram sequence;
        client: Rectangle;

        note [on=[client], align="top"]: "Invalid align for sequence";
        "#;
    let result = parse_and_validate(input);
    assert!(result.is_err(), "Invalid align should fail validation");
    let err = result.unwrap_err();
    assert!(err[0].to_string().contains("invalid align value `top` for sequence diagram"));
}

#[test]
fn test_invalid_align_component_diagram() {
    let input = r#"
        diagram component;
        api: Rectangle;

        note [on=[api], align="over"]: "Invalid align for component";
        "#;
    let result = parse_and_validate(input);
    assert!(result.is_err(), "Invalid align should fail validation");
    let err = result.unwrap_err();
    assert!(err[0].to_string().contains("invalid align value `over` for component diagram"));
}

#[test]
fn test_multiple_component_references() {
    let input = r#"
        diagram sequence;
        client: Rectangle;
        server: Rectangle;

        note [on=[client, server]]: "Valid spanning note";
        "#;
    let result = parse_and_validate(input);
    assert!(result.is_ok(), "Valid spanning note should pass validation");
}

#[test]
fn test_empty_on_attribute() {
    let input = r#"
        diagram sequence;
        client: Rectangle;

        note [on=[]]: "Margin note with empty on";
        "#;
    let result = parse_and_validate(input);
    assert!(result.is_ok(), "Empty on attribute should be valid (margin note)");
}

/// A component diagram whose boxes embed the given diagram sources.
fn embedding_file(boxes: Vec<(&str, DiagramSource)>) -> FileAst {
    let mut elements = Vec::new();
    let mut offset = 28;
    for (name, source) in boxes {
        elements.push(Element::Component {
            name: Spanned::new(Id::new(name), Span::new(offset..offset + name.len())),
            display_name: None,
            type_spec: TypeSpec {
                base_type: Some(Spanned::new(
                    Id::new("Rectangle"),
                    Span::new(offset + name.len() + 2..offset + name.len() + 11),
                )),
                attributes: vec![],
            },
            content: ComponentContent::Diagram(source),
        });
        offset += 40;
    }
    FileAst {
        header: FileHeader::Diagram {
            kind: Spanned::new(DiagramKind::Component, Span::new(17..26)),
            attributes: vec![],
        },
        import_decls: vec![],
        imports: vec![],
        type_definitions: vec![],
        elements,
    }
}

#[test]
fn test_embed_ref_unknown_produces_e204() {
    // `box: Rectangle embed nonexistent;`
    let ast = embedding_file(vec![(
        "box",
        DiagramSource::Ref(Spanned::new(Id::new("nonexistent"), Span::new(49..60))),
    )]);
    let result = orrery::validate::validate(&ast);
    assert!(result.is_err(), "Unresolved embed ref should fail validation");
    let err = result.unwrap_err();
    assert_eq!(err.len(), 1);
    assert_eq!(err[0].code(), Some(ErrorCode::E204), "Expected E204, got: {:?}", err[0].code());
}

#[test]
fn test_embed_inline_passes_validation() {
    // `box: Rectangle embed { diagram sequence; };`
    let inner = FileAst {
        header: FileHeader::Diagram {
            kind: Spanned::new(DiagramKind::Sequence, Span::new(59..67)),
            attributes: vec![],
        },
        import_decls: vec![],
        imports: vec![],
        type_definitions: vec![],
        elements: vec![],
    };
    let ast = embedding_file(vec![("box", DiagramSource::Inline(Box::new(inner)))]);
    let result = orrery::validate::validate(&ast);
    assert!(result.is_ok(), "Inline embed should pass validation: {:?}", result.err());
}

#[test]
fn test_embed_ref_multiple_unresolved() {
    // `box1: Rectangle embed missing1;` and `box2: Rectangle embed missing2;`
    let ast = embedding_file(vec![
        ("box1", DiagramSource::Ref(Spanned::new(Id::new("missing1"), Span::new(50..58)))),
        ("box2", DiagramSource::Ref(Spanned::new(Id::new("missing2"), Span::new(90..98)))),
    ]);
    let result = orrery::validate::validate(&ast);
    assert!(result.is_err(), "Unresolved embed refs should fail validation");
    let err = result.unwrap_err();
    assert_eq!(err.len(), 2, "Expected two E204 errors, got: {:?}", err);
    assert_eq!(err[0].code(), Some(ErrorCode::E204));
    assert_eq!(err[1].code(), Some(ErrorCode::E204));
}
