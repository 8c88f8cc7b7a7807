use nexq::qwen_asr::{
    asr_language_code, audio_data, data_url, encode_wav, endpoint, models_url, response_text, FeedAction,
    QwenAsrSTT,
};

#[test]
fn wav_header_describes_16khz_mono_pcm() {
    let wav = encode_wav(&[1, -1]);
    assert_eq!(wav.len(), 48);
    assert_eq!(&wav[0..4], b"RIFF");
    assert_eq!(&wav[4..8], &40u32.to_le_bytes());
    assert_eq!(&wav[8..16], b"WAVEfmt ");
    assert_eq!(&wav[16..20], &16u32.to_le_bytes());
    assert_eq!(&wav[20..24], &[1, 0, 1, 0]);
    assert_eq!(&wav[24..28], &16000u32.to_le_bytes());
    assert_eq!(&wav[28..32], &32000u32.to_le_bytes());
    assert_eq!(&wav[32..36], &[2, 0, 16, 0]);
    assert_eq!(&wav[36..40], b"data");
    assert_eq!(&wav[40..44], &4u32.to_le_bytes());
    assert_eq!(&wav[44..48], &[1, 0, 0xff, 0xff]);
}

#[test]
fn audio_is_sent_as_a_base64_data_url() {
    let url = audio_data(&[]);
    assert!(url.starts_with("data:audio/wav;base64,UklGR"));
    // 44 header bytes encode to 60 base64 characters.
    assert_eq!(url.len(), "data:audio/wav;base64,".len() + 60);
    assert_ne!(url, "data:audio/wav;base64,");
}

#[test]
fn language_codes_drop_regions_and_auto() {
    assert_eq!(asr_language_code("zh-CN"), Some("zh".to_string()));
    assert_eq!(asr_language_code("en"), Some("en".to_string()));
    assert_eq!(asr_language_code("auto"), None);
    assert_eq!(asr_language_code("-x"), None);
    assert_eq!(asr_language_code(""), None);
}

#[test]
fn endpoints_trim_trailing_slashes() {
    assert_eq!(
        endpoint(None),
        "https://dashscope.aliyuncs.com/compatible-mode/v1/chat/completions"
    );
    assert_eq!(endpoint(Some("https://x.example/v1//")), "https://x.example/v1/chat/completions");
    assert_eq!(
        endpoint(Some("   ")),
        "https://dashscope.aliyuncs.com/compatible-mode/v1/chat/completions"
    );
    assert_eq!(models_url(Some("https://x.example/v1/")), "https://x.example/v1/models");
    assert_eq!(
        models_url(None),
        "https://dashscope.aliyuncs.com/compatible-mode/v1/models"
    );
}

#[test]
fn reply_parts_are_joined_and_trimmed() {
    assert_eq!(response_text(&vec![" 你好".to_string(), "world ".to_string()]), "你好world");
    assert_eq!(response_text(&vec![]), "");
}

#[test]
fn streams_need_a_key_and_start_once() {
    let mut stt = QwenAsrSTT::new();
    assert_eq!(stt.provider_name(), "Qwen ASR");
    assert_eq!(stt.start_stream(0).unwrap_err(), "Qwen API key not configured");
    stt.set_api_key("sk-test");
    assert!(stt.start_stream(10).is_ok());
    assert_eq!(stt.start_stream(20).unwrap_err(), "Stream already active");
}

#[test]
fn five_seconds_of_audio_make_a_segment() {
    let mut stt = QwenAsrSTT::with_api_key("k");
    stt.set_language("zh-CN");
    assert_eq!(stt.language, "zh-CN");
    stt.start_stream(1_000).unwrap();
    let loud = vec![1000i16; 40_000];
    assert!(matches!(stt.feed_audio(&loud, 0, 2_000), FeedAction::Nothing));
    assert!(matches!(stt.feed_audio(&vec![0i16; 40_000], 0, 2_500), FeedAction::Nothing));
    match stt.feed_audio(&loud, 0, 6_000) {
        FeedAction::SendSegment { samples, timestamp_ms } => {
            assert_eq!(samples.len(), 80_000);
            assert_eq!(timestamp_ms, 5_000);
        }
        FeedAction::Nothing => panic!("expected a segment"),
    }
    assert!(stt.audio_buffer.is_empty());
}

#[test]
fn stopping_flushes_the_partial_buffer() {
    let mut stt = QwenAsrSTT::with_api_key("k");
    assert!(stt.stop_stream(0).is_none());
    stt.start_stream(100).unwrap();
    stt.feed_audio(&[500, -500, 500], 0, 150);
    let (samples, ts) = stt.stop_stream(400).unwrap();
    assert_eq!(samples, vec![500, -500, 500]);
    assert_eq!(ts, 300);
    assert!(!stt.is_streaming);
    assert!(matches!(stt.feed_audio(&[500], 0, 500), FeedAction::Nothing));
}

#[test]
fn every_loud_sample_reaches_one_segment() {
    let mut stt = QwenAsrSTT::with_api_key("k");
    stt.start_stream(0).unwrap();
    let mut fed: Vec<i16> = Vec::new();
    let mut sent: Vec<i16> = Vec::new();
    for i in 0..7i16 {
        let chunk: Vec<i16> = (0..30_000).map(|k| ((k % 200) as i16 - 100) * (i + 1)).collect();
        fed.extend_from_slice(&chunk);
        if let FeedAction::SendSegment { samples, .. } = stt.feed_audio(&chunk, 0, 10) {
            assert!(samples.len() >= 80_000);
            sent.extend_from_slice(&samples);
        }
    }
    sent.extend_from_slice(&stt.audio_buffer);
    assert_eq!(sent, fed);
}

#[test]
fn data_urls_carry_wav_audio() {
    assert_eq!(data_url("UklGRg=="), "data:audio/wav;base64,UklGRg==");
    assert_eq!(data_url(""), "data:audio/wav;base64,");
}
