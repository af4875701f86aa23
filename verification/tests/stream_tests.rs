use vosk::Error;
use vosk::handle::HandleAccount;
use vosk::results::RecognizedText;
use vosk::stream::{boundary_from_raw, symbol_from_raw, Session, StubEngine, StubModel};

#[test]
fn boundary_flag_decoding() {
    assert!(!boundary_from_raw(0));
    assert!(boundary_from_raw(1));
    assert!(boundary_from_raw(-7));
}

#[test]
fn symbol_sentinel_decoding() {
    assert_eq!(symbol_from_raw(-1), None);
    assert_eq!(symbol_from_raw(0), Some(0));
    assert_eq!(symbol_from_raw(42), Some(42));
}

#[test]
fn stub_model_lookup() {
    let model = StubModel::new(vec!["yes".to_string(), "no".to_string()]);
    let yes = model.find_word("yes").unwrap();
    let no = model.find_word("no").unwrap();
    assert!(yes >= 1);
    assert!(no >= 1);
    assert_eq!(yes, 1);
    assert_eq!(no, 2);
    assert_eq!(model.find_word("maybe"), None);
    assert_eq!(model.find_word(""), None);
}

#[test]
fn session_protocol() {
    let mut session = Session::new();
    assert!(!session.utterance_ready());
    session.note_waveform(false);
    assert!(!session.utterance_ready());
    session.note_waveform(true);
    assert!(session.utterance_ready());
    session.note_result_read();
    assert!(!session.utterance_ready());
}

#[test]
fn stub_boundary_only_at_silence_run() {
    let mut engine = StubEngine::new(100, 3);
    assert!(!engine.accept_waveform(&[500, 500]));
    assert!(!engine.accept_waveform(&[400, 0]));
    assert!(!engine.accept_waveform(&[0]));
    assert!(engine.accept_waveform(&[0]));
    let text = engine.final_result();
    assert_eq!(text.text, "sound");
    assert!(text.result.is_none());
    assert!(!engine.accept_waveform(&[0, 0, 0, 0]));
    assert!(!engine.accept_waveform(&[900]));
    assert!(engine.accept_waveform(&[0, 0, 0]));
    let text = engine.final_result();
    assert_eq!(text.text, "sound");
}

#[test]
fn stub_counts_bursts_within_an_utterance() {
    let mut engine = StubEngine::new(10, 4);
    assert!(!engine.accept_waveform(&[200, 0, 0, 300, 300]));
    let partial = engine.partial_result();
    assert_eq!(partial.partial, "sound sound");
    assert!(engine.accept_waveform(&[0, 0, 0, 0]));
    let boundary_case = engine.result();
    assert_eq!(boundary_case.text, "sound sound");
    assert!(boundary_case.result.is_none());
    let flushed = engine.final_result();
    assert_eq!(flushed.text, "");
}

#[test]
fn stub_flush_with_nothing_fed_is_empty() {
    let mut engine = StubEngine::new(100, 3);
    let text = engine.final_result();
    assert_eq!(text.text, "");
    assert!(text.result.is_none());
}

#[test]
fn stub_wire_form_parses_back() {
    let mut engine = StubEngine::new(100, 2);
    let wire = engine.final_result_text();
    assert_eq!(wire, "{\"text\":\"\"}");
    let parsed = RecognizedText::parse(&wire).unwrap();
    assert_eq!(parsed.text, "");
    assert!(parsed.result.is_none());

    engine.accept_waveform(&[500]);
    let wire = engine.final_result_text();
    assert_eq!(wire, "{\"text\":\"sound\"}");
    let parsed = RecognizedText::parse(&wire).unwrap();
    assert_eq!(parsed.text, "sound");
    assert!(parsed.result.is_none());
}

#[test]
fn session_follows_stub_boundaries() {
    let mut engine = StubEngine::new(50, 2);
    let mut session = Session::new();
    let boundary = engine.accept_waveform(&[300, 300]);
    session.note_waveform(boundary);
    assert!(!session.utterance_ready());
    let boundary = engine.accept_waveform(&[0, 0]);
    session.note_waveform(boundary);
    assert!(session.utterance_ready());
    let text = engine.result();
    session.note_result_read();
    assert_eq!(text.text, "sound");
    assert!(!session.utterance_ready());
}

#[test]
fn stub_release_happens_once() {
    let mut engine = StubEngine::new(100, 3);
    engine.accept_waveform(&[500]);
    let freed = engine.release();
    assert!(freed);
}

#[test]
fn rejected_null_token() {
    assert_eq!(HandleAccount::try_new(0).unwrap_err(), Error::NoValidModel);
}

#[test]
fn shared_model_outlives_original_reference() {
    let mut account = HandleAccount::try_new(42).unwrap();
    assert!(account.usable());
    account.share();
    let freed_now = account.release();
    assert!(!freed_now);
    assert!(account.usable());
    assert_eq!(account.token(), 42);
    let freed_now = account.release();
    assert!(freed_now);
    assert!(!account.usable());
}

#[test]
fn two_decoders_on_one_model_stay_independent() {
    let mut account = HandleAccount::try_new(7).unwrap();
    account.share();
    let mut first = StubEngine::new(100, 2);
    let mut second = StubEngine::new(100, 2);
    assert!(!first.accept_waveform(&[500]));
    assert!(!second.accept_waveform(&[0, 0]));
    assert!(first.accept_waveform(&[0, 0]));
    let from_first = first.final_result();
    assert_eq!(from_first.text, "sound");
    let from_second = second.final_result();
    assert_eq!(from_second.text, "");
    assert!(!account.release());
    assert!(account.usable());
    assert!(account.release());
}
