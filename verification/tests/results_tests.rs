use vosk::Error;
use vosk::results::{RecognizedPartial, RecognizedText, render_final_text};

#[test]
fn partial_plain() {
    let r = RecognizedPartial::parse("{\"partial\" : \"one two\"}").unwrap();
    assert_eq!(r.partial, "one two");
}

#[test]
fn partial_empty() {
    let r = RecognizedPartial::parse("{\"partial\":\"\"}").unwrap();
    assert_eq!(r.partial, "");
}

#[test]
fn partial_rejects_final_shape() {
    assert_eq!(RecognizedPartial::parse("{\"text\" : \"\"}"), Err(Error::MalformedResult));
}

#[test]
fn final_no_speech() {
    let r = RecognizedText::parse("{\"text\": \"\"}").unwrap();
    assert_eq!(r.text, "");
    assert!(r.result.is_none());
}

#[test]
fn final_with_word_detail() {
    let wire = "{\n  \"result\" : [{\n      \"conf\" : 1.000000,\n      \"end\" : 1.110000,\n      \"start\" : 0.870000,\n      \"word\" : \"zero\"\n    }, {\n      \"conf\" : 0.970000,\n      \"end\" : 2.000000,\n      \"start\" : 1.500000,\n      \"word\" : \"one\"\n    }],\n  \"text\" : \"zero one\"\n}";
    let r = RecognizedText::parse(wire).unwrap();
    assert_eq!(r.text, "zero one");
    let words = r.result.unwrap();
    assert_eq!(words.len(), 2);
    assert_eq!(words[0].word, "zero");
    assert_eq!(words[0].conf, "1.000000");
    assert_eq!(words[0].start, "0.870000");
    assert_eq!(words[0].end, "1.110000");
    assert_eq!(words[1].word, "one");
    assert_eq!(words[1].conf, "0.970000");
}

#[test]
fn final_with_empty_detail_list() {
    let r = RecognizedText::parse("{\"result\":[],\"text\":\"\"}").unwrap();
    assert_eq!(r.text, "");
    assert_eq!(r.result.unwrap().len(), 0);
}

#[test]
fn final_decodes_escapes() {
    let r = RecognizedText::parse("{\"text\":\"a\\\"b\\n\\u0041\\\\c\"}").unwrap();
    assert_eq!(r.text, "a\"b\nA\\c");
}

#[test]
fn final_keeps_exotic_numerals() {
    let wire = "{\"result\":[{\"conf\":-0.5e+3,\"end\":12.25,\"start\":0,\"word\":\"x\"}],\"text\":\"x\"}";
    let r = RecognizedText::parse(wire).unwrap();
    let words = r.result.unwrap();
    assert_eq!(words[0].conf, "-0.5e+3");
    assert_eq!(words[0].end, "12.25");
    assert_eq!(words[0].start, "0");
}

#[test]
fn final_rejects_malformed_text() {
    assert_eq!(RecognizedText::parse(""), Err(Error::MalformedResult));
    assert_eq!(RecognizedText::parse("{\"garbage\":1}"), Err(Error::MalformedResult));
    assert_eq!(RecognizedText::parse("{\"text\":\"x\"} trailing"), Err(Error::MalformedResult));
    assert_eq!(RecognizedText::parse("{\"text\":\"x\""), Err(Error::MalformedResult));
    assert_eq!(RecognizedText::parse("{\"text\":\"bad \\u00G1\"}"), Err(Error::MalformedResult));
    assert_eq!(RecognizedText::parse("{\"text\":\"lone \\ud800\"}"), Err(Error::MalformedResult));
    assert_eq!(
        RecognizedText::parse("{\"result\":[],\"text\":\"x\",\"extra\":2}"),
        Err(Error::MalformedResult),
    );
}

#[test]
fn final_rejects_leading_zero_numerals() {
    let wire = "{\"result\":[{\"conf\":01.0,\"end\":1.0,\"start\":0.0,\"word\":\"x\"}],\"text\":\"x\"}";
    assert_eq!(RecognizedText::parse(wire), Err(Error::MalformedResult));
}

#[test]
fn render_then_parse_gives_text_back() {
    let wire = render_final_text("hello world");
    assert_eq!(wire, "{\"text\":\"hello world\"}");
    let r = RecognizedText::parse(&wire).unwrap();
    assert_eq!(r.text, "hello world");
    assert!(r.result.is_none());
}

#[test]
fn render_then_parse_with_escapes() {
    let text = "he said \"stop\"\\now\u{1}";
    let wire = render_final_text(text);
    let r = RecognizedText::parse(&wire).unwrap();
    assert_eq!(r.text, text);
    assert!(r.result.is_none());
}

#[test]
fn error_descriptions() {
    assert_eq!(Error::NoValidModel.describe(), "could not find a valid model at the given path");
    assert_eq!(
        Error::MalformedResult.describe(),
        "the engine returned a result in an unexpected format",
    );
}
