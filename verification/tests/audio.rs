use seedraft::audio::{
    choose_extension, encode_mono_pcm16_wav, encode_pcm16_bytes, resolve_audio_extension,
    sanitize_extension, should_normalize_audio,
};
use seedraft::capture::{
    capture_limit, drain_pcm, into_wav, now_millis, system_audio_supported, CaptureBuffer,
    CaptureInfo, SystemAudioCaptureManager,
};
use seedraft::normalize::{NormalizeAction, NormalizeEvent, Normalizer};

#[test]
fn known_audio_is_normalized() {
    assert!(should_normalize_audio("MP3"));
    assert!(should_normalize_audio("webm"));
    assert!(!should_normalize_audio("aac"));
}

#[test]
fn extension_comes_from_the_name() {
    assert_eq!(resolve_audio_extension(Some("a.b.WAV"), Some("audio/mpeg")), "wav");
    assert_eq!(resolve_audio_extension(Some("dir/rec.Mp3"), None), "mp3");
}

#[test]
fn extension_comes_from_the_type() {
    assert_eq!(resolve_audio_extension(Some(".wav"), Some("audio/mpeg")), "mp3");
    assert_eq!(resolve_audio_extension(Some("blob"), Some("audio/x-m4a")), "m4a");
    assert_eq!(resolve_audio_extension(None, Some("audio/x-wav")), "wav");
    assert_eq!(resolve_audio_extension(None, Some("audio/ogg")), "ogg");
    assert_eq!(resolve_audio_extension(Some("a.much_too_long"), None), "webm");
    assert_eq!(resolve_audio_extension(Some(".."), None), "webm");
}

#[test]
fn given_extension_is_judged() {
    assert_eq!(choose_extension(Some("abcdefgh"), None), "abcdefgh");
    assert_eq!(choose_extension(Some("abcdefghi"), None), "webm");
    assert_eq!(choose_extension(Some(""), Some("audio/wav")), "wav");
    assert_eq!(choose_extension(Some("m-4"), Some("audio/mp4")), "m4a");
}

#[test]
fn extensions_are_sanitized() {
    assert_eq!(sanitize_extension("../W.A-V"), "wav");
    assert_eq!(sanitize_extension("abcdefghijk"), "abcdefgh");
    assert_eq!(sanitize_extension("音声"), "webm");
}

#[test]
fn samples_are_little_endian() {
    assert_eq!(
        encode_pcm16_bytes(&[1, -1, 256, i16::MIN]),
        vec![1, 0, 255, 255, 0, 1, 0, 128]
    );
}

#[test]
fn wav_is_exact() {
    let bytes = encode_mono_pcm16_wav(16000, &[1, -2]).unwrap();
    let mut expected: Vec<u8> = Vec::new();
    expected.extend_from_slice(b"RIFF");
    expected.extend_from_slice(&40u32.to_le_bytes());
    expected.extend_from_slice(b"WAVEfmt ");
    expected.extend_from_slice(&16u32.to_le_bytes());
    expected.extend_from_slice(&1u16.to_le_bytes());
    expected.extend_from_slice(&1u16.to_le_bytes());
    expected.extend_from_slice(&16000u32.to_le_bytes());
    expected.extend_from_slice(&32000u32.to_le_bytes());
    expected.extend_from_slice(&2u16.to_le_bytes());
    expected.extend_from_slice(&16u16.to_le_bytes());
    expected.extend_from_slice(b"data");
    expected.extend_from_slice(&4u32.to_le_bytes());
    expected.extend_from_slice(&1i16.to_le_bytes());
    expected.extend_from_slice(&(-2i16).to_le_bytes());
    assert_eq!(bytes, expected);
}

#[test]
fn wav_is_read_back() {
    let samples: Vec<i16> = vec![0, 5, -5, i16::MAX, i16::MIN];
    let bytes = encode_mono_pcm16_wav(44100, &samples).unwrap();
    let mut reader = hound::WavReader::new(std::io::Cursor::new(bytes)).unwrap();
    assert_eq!(reader.spec().channels, 1);
    assert_eq!(reader.spec().sample_rate, 44100);
    let read: Vec<i16> = reader.samples::<i16>().map(|s| s.unwrap()).collect();
    assert_eq!(read, samples);
}

#[test]
fn capture_is_bounded() {
    let mut buffer = CaptureBuffer::new(2, Some(1));
    buffer.push(1);
    buffer.push(2);
    buffer.push(3);
    assert_eq!(buffer.samples, vec![1, 2]);
    assert_eq!(CaptureBuffer::new(8, Some(0)).max_samples, None);
    assert_eq!(CaptureBuffer::new(8, None).max_samples, None);
}

#[test]
fn every_sample_is_drained_once() {
    let mut buffer = CaptureBuffer::new(8000, None);
    buffer.push(1);
    buffer.push(2);
    assert_eq!(buffer.drain_since_last_read(), vec![1, 2]);
    assert_eq!(buffer.drain_since_last_read(), Vec::<i16>::new());
    buffer.push(3);
    let chunk = drain_pcm(&mut buffer, 8000);
    assert_eq!(chunk.bytes, vec![3, 0]);
    assert_eq!(chunk.sample_count, 1);
    assert_eq!(chunk.sample_rate, 8000);
}

#[test]
fn much_that_was_read_is_thrown_away() {
    let mut buffer = CaptureBuffer::new(8000, None);
    for _ in 0..262_145 {
        buffer.push(7);
    }
    assert_eq!(buffer.drain_since_last_read().len(), 262_145);
    assert_eq!(buffer.samples.len(), 0);
    assert_eq!(buffer.read_cursor, 0);
}

#[test]
fn capture_becomes_a_wav() {
    let mut buffer = CaptureBuffer::new(8000, None);
    match into_wav(&buffer, 8000) {
        Err(e) => assert_eq!(
            e,
            "PC音声を取得できませんでした。再生中の音声があるか確認してください"
        ),
        Ok(_) => panic!("nothing was captured"),
    }
    buffer.push(9);
    match into_wav(&buffer, 8000) {
        Ok(wav) => {
            assert_eq!(wav.bytes.len(), 46);
            assert_eq!(wav.sample_count, 1);
        }
        Err(e) => panic!("{}", e),
    }
}

#[test]
fn one_capture_runs_at_a_time() {
    let mut manager = SystemAudioCaptureManager::new();
    assert!(!manager.status(true, 0).active);
    assert!(manager.running().is_err());
    assert!(!manager.cancel());
    let info = || {
        Ok(CaptureInfo {
            device_name: "speakers".to_string(),
            sample_rate: 48000,
            started_at: 5,
        })
    };
    let answer = manager.start(info()).unwrap();
    assert_eq!(answer.device_name, "speakers");
    assert_eq!(answer.started_at, 5);
    match manager.start(info()) {
        Err(e) => assert_eq!(e, "システム音声キャプチャは既に実行中です"),
        Ok(_) => panic!("a capture is running"),
    }
    let status = manager.status(true, 12);
    assert!(status.active && status.supported);
    assert_eq!(status.elapsed_ms, Some(12));
    assert_eq!(status.sample_rate, Some(48000));
    assert_eq!(manager.stop().map(|s| s.sample_rate), Ok(48000));
    match manager.stop() {
        Err(e) => assert_eq!(e, "システム音声キャプチャは開始されていません"),
        Ok(_) => panic!("no capture is running"),
    }
    match manager.start(Err("no device".to_string())) {
        Err(e) => assert_eq!(e, "no device"),
        Ok(_) => panic!("the device is missing"),
    }
}

#[test]
fn capture_limits_are_clamped() {
    assert_eq!(capture_limit(None), None);
    assert_eq!(capture_limit(Some(0)), Some(1));
    assert_eq!(capture_limit(Some(60)), Some(60));
    assert_eq!(capture_limit(Some(90_000)), Some(7200));
}

#[test]
fn capture_needs_windows() {
    assert!(system_audio_supported("windows"));
    assert!(!system_audio_supported("linux"));
}

#[test]
fn clock_is_read() {
    assert!(now_millis() > 1_600_000_000_000);
}

#[test]
fn packets_are_converted() {
    let mut n = Normalizer::new(7);
    assert!(matches!(n.step(NormalizeEvent::Packet(3)), NormalizeAction::Read));
    assert!(matches!(n.step(NormalizeEvent::Packet(7)), NormalizeAction::Decode));
    assert!(matches!(n.step(NormalizeEvent::Undecodable), NormalizeAction::Read));
    assert!(matches!(n.step(NormalizeEvent::Packet(7)), NormalizeAction::Decode));
    assert!(matches!(
        n.step(NormalizeEvent::Decoded(44100)),
        NormalizeAction::Create(44100)
    ));
    assert!(matches!(n.step(NormalizeEvent::Done(0)), NormalizeAction::Write));
    assert!(matches!(n.step(NormalizeEvent::Done(10)), NormalizeAction::Read));
    assert!(matches!(n.step(NormalizeEvent::Packet(7)), NormalizeAction::Decode));
    assert!(matches!(n.step(NormalizeEvent::Decoded(44100)), NormalizeAction::Write));
    assert!(matches!(n.step(NormalizeEvent::Done(5)), NormalizeAction::Read));
    assert!(matches!(n.step(NormalizeEvent::End), NormalizeAction::Finalize));
    assert!(matches!(
        n.step(NormalizeEvent::Done(0)),
        NormalizeAction::Finish(Ok(()))
    ));
    assert_eq!(n.wrote_samples, 15);
}

fn failure(n: &mut Normalizer, event: NormalizeEvent) -> String {
    match n.step(event) {
        NormalizeAction::Finish(Err(e)) => e,
        _ => panic!("a failure was expected"),
    }
}

#[test]
fn conversion_failures_are_told() {
    assert_eq!(
        failure(&mut Normalizer::new(0), NormalizeEvent::End),
        "音声サンプルを読み込めませんでした"
    );
    assert_eq!(
        failure(&mut Normalizer::new(0), NormalizeEvent::ResetRequired),
        "音声デコーダのリセットが必要な形式です"
    );
    assert_eq!(
        failure(&mut Normalizer::new(0), NormalizeEvent::Failed("x".to_string())),
        "音声パケットを読み込めませんでした: x"
    );
    let mut n = Normalizer::new(0);
    n.step(NormalizeEvent::Packet(0));
    assert_eq!(
        failure(&mut n, NormalizeEvent::Failed("x".to_string())),
        "音声をデコードできませんでした: x"
    );
    let mut n = Normalizer::new(0);
    n.step(NormalizeEvent::Packet(0));
    n.step(NormalizeEvent::Decoded(8000));
    assert_eq!(
        failure(&mut n, NormalizeEvent::Failed("x".to_string())),
        "WAVファイルを作成できませんでした: x"
    );
    let mut n = Normalizer::new(0);
    n.step(NormalizeEvent::Packet(0));
    n.step(NormalizeEvent::Decoded(8000));
    n.step(NormalizeEvent::Done(0));
    assert_eq!(
        failure(&mut n, NormalizeEvent::Failed("x".to_string())),
        "WAVサンプルを書き込めませんでした: x"
    );
    let mut n = Normalizer::new(0);
    n.step(NormalizeEvent::Packet(0));
    n.step(NormalizeEvent::Decoded(8000));
    n.step(NormalizeEvent::Done(0));
    n.step(NormalizeEvent::Done(0));
    n.step(NormalizeEvent::End);
    assert_eq!(failure(&mut n, NormalizeEvent::Done(0)), "音声サンプルが空でした");
}

#[test]
fn directories_do_not_matter() {
    assert_eq!(resolve_audio_extension(Some("a.b/c.d/take.MP3"), Some("audio/ogg")), "mp3");
    assert_eq!(resolve_audio_extension(Some("/take.mp3/"), None), "mp3");
    assert_eq!(resolve_audio_extension(Some("take.mp3/."), None), "mp3");
    assert_eq!(resolve_audio_extension(Some("a.mp3/.."), None), "webm");
    assert_eq!(resolve_audio_extension(Some("a.mp3/take"), Some("audio/ogg")), "ogg");
    assert_eq!(resolve_audio_extension(Some("a.mp3/.wav"), None), "webm");
    assert_eq!(resolve_audio_extension(Some("./a.wav"), None), "wav");
    assert_eq!(resolve_audio_extension(Some("."), None), "webm");
    assert_eq!(resolve_audio_extension(Some("C:\\music\\take.MP3"), None), "mp3");
    assert_eq!(resolve_audio_extension(Some("C:take.wav"), Some("audio/ogg")), "wav");
    assert_eq!(resolve_audio_extension(Some("a.b\\take."), Some("audio/ogg")), "ogg");
}

#[test]
fn chosen_extensions_are_sound() {
    for (name, kind) in [
        (Some("a.WAV"), None),
        (Some("a.m4 a"), Some("audio/x-m4a")),
        (Some("a."), Some("audio/wav")),
        (None, Some("text/plain")),
        (None, None),
    ] {
        let extension = resolve_audio_extension(name, kind);
        assert_eq!(sanitize_extension(&extension), extension);
    }
}
