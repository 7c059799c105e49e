use hoover::speaker::{backend_kind, backend_name, speaker_windows, SttBackend};

#[test]
fn windows_of_three_seconds() {
    assert_eq!(speaker_windows(48000 * 2 + 20000), vec![(0, 48000), (48000, 96000), (96000, 116000)]);
    assert_eq!(speaker_windows(48000 + 15999), vec![(0, 48000)]);
    assert_eq!(speaker_windows(15999), Vec::<(usize, usize)>::new());
    assert_eq!(speaker_windows(16000), vec![(0, 16000)]);
    assert_eq!(speaker_windows(0), Vec::<(usize, usize)>::new());
}

#[test]
fn backend_names() {
    assert_eq!(backend_kind("whisper").ok(), Some(SttBackend::Whisper));
    assert_eq!(backend_kind("vosk").ok(), Some(SttBackend::Vosk));
    assert_eq!(backend_kind("openai").ok(), Some(SttBackend::OpenAi));
    assert!(matches!(backend_kind("deepgram"), Err(hoover::error::HooverError::Stt(_))));
    assert_eq!(backend_name(SttBackend::OpenAi), "openai");
}
