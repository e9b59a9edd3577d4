use audio_capture::{ChunkerConfig, SourceChunkers, SourceKind, SpeechChunk, SpeechChunker};

const RATE: u32 = 16_000;
const FRAME: usize = 320; // 20ms at 16kHz, matching real capture frames
/// Frame RMS at or above this counts as speech (the application's default).
const SPEECH_RMS_THRESHOLD: f32 = 0.01;

fn speech_frame() -> Vec<f32> {
    // Constant 0.1 amplitude: RMS 0.1, comfortably above threshold.
    vec![0.1; FRAME]
}

fn silent_frame() -> Vec<f32> {
    vec![0.0; FRAME]
}

fn is_speech(frame: &[f32]) -> bool {
    if frame.is_empty() {
        return false;
    }
    let rms = (frame.iter().map(|s| s * s).sum::<f32>() / frame.len() as f32).sqrt();
    rms >= SPEECH_RMS_THRESHOLD
}

fn push(chunker: &mut SpeechChunker<f32>, frame: &[f32], rate: u32) -> Option<SpeechChunk<f32>> {
    chunker.push_mono(frame, rate, is_speech(frame))
}

fn push_seconds(
    chunker: &mut SpeechChunker<f32>,
    seconds: f32,
    frame: &[f32],
    out: &mut Vec<SpeechChunk<f32>>,
) {
    let frames = (seconds * RATE as f32 / FRAME as f32) as usize;
    for _ in 0..frames {
        if let Some(chunk) = push(chunker, frame, RATE) {
            out.push(chunk);
        }
    }
}

fn secs(chunk: &SpeechChunk<f32>) -> f32 {
    chunk.duration_ms() as f32 / 1000.0
}

#[test]
fn one_utterance_produces_one_chunk() {
    let mut chunker = SpeechChunker::new(ChunkerConfig::default());
    let mut chunks = Vec::new();
    push_seconds(&mut chunker, 0.5, &silent_frame(), &mut chunks);
    push_seconds(&mut chunker, 2.0, &speech_frame(), &mut chunks);
    push_seconds(&mut chunker, 1.5, &silent_frame(), &mut chunks);

    assert_eq!(chunks.len(), 1);
    let dur = secs(&chunks[0]);
    // ~250ms pre-roll + 2s speech + ~700ms hangover
    assert!((2.5..3.5).contains(&dur), "unexpected chunk duration {dur}s");
}

#[test]
fn short_blip_is_discarded() {
    let mut chunker = SpeechChunker::new(ChunkerConfig::default());
    let mut chunks = Vec::new();
    push_seconds(&mut chunker, 0.5, &silent_frame(), &mut chunks);
    push_seconds(&mut chunker, 0.1, &speech_frame(), &mut chunks); // a click/cough
    push_seconds(&mut chunker, 1.5, &silent_frame(), &mut chunks);

    assert!(chunks.is_empty(), "sub-min_speech blip should be dropped");
}

#[test]
fn long_speech_is_split_at_max_chunk() {
    let mut chunker = SpeechChunker::new(ChunkerConfig::default());
    let mut chunks = Vec::new();
    push_seconds(&mut chunker, 15.0, &speech_frame(), &mut chunks);
    assert_eq!(chunks.len(), 1, "max_chunk should force an emit mid-speech");
    assert!((11.5..12.5).contains(&secs(&chunks[0])));

    // The remainder is still in flight and comes out on flush.
    let tail = chunker.flush().expect("remaining speech should flush");
    assert!(secs(&tail) > 2.0);
}

#[test]
fn mid_sentence_pause_does_not_split() {
    let mut chunker = SpeechChunker::new(ChunkerConfig::default());
    let mut chunks = Vec::new();
    push_seconds(&mut chunker, 1.0, &speech_frame(), &mut chunks);
    push_seconds(&mut chunker, 0.4, &silent_frame(), &mut chunks); // < hangover
    push_seconds(&mut chunker, 1.0, &speech_frame(), &mut chunks);
    push_seconds(&mut chunker, 1.0, &silent_frame(), &mut chunks);

    assert_eq!(chunks.len(), 1, "a 400ms pause should stay inside one chunk");
}

#[test]
fn sample_rate_change_resets_cleanly() {
    let mut chunker = SpeechChunker::new(ChunkerConfig::default());
    let mut chunks = Vec::new();
    push_seconds(&mut chunker, 1.0, &speech_frame(), &mut chunks);
    // Device switch mid-utterance: new rate arrives.
    assert!(push(&mut chunker, &speech_frame(), 48_000).is_none());
    assert!(chunks.is_empty(), "in-flight mixed-rate chunk must be dropped");
}

// ---------------------------------------------------------------------------

#[test]
fn pre_roll_is_prepended_exactly() {
    // 10 samples per millisecond-free unit: rate 1000 Hz, so 1 ms = 1 sample.
    let config = ChunkerConfig { silence_hangover_ms: 3, min_speech_ms: 2, max_chunk_ms: 100, pre_roll_ms: 2 };
    let mut c: SpeechChunker<u8> = SpeechChunker::new(config);
    assert!(c.push_mono(&[1, 2, 3], 1_000, false).is_none());
    assert!(c.push_mono(&[4, 5], 1_000, true).is_none());
    assert!(c.push_mono(&[6], 1_000, false).is_none());
    assert!(c.push_mono(&[7], 1_000, false).is_none());
    let chunk = c.push_mono(&[8], 1_000, false).expect("hangover reached");
    // Two samples of pre-roll, the speech, then the silence that ended it.
    assert_eq!(chunk.samples, vec![2, 3, 4, 5, 6, 7, 8]);
    assert_eq!(chunk.sample_rate, 1_000);
    assert_eq!(chunk.duration_ms(), 7);
}

#[test]
fn flush_drops_a_chunk_with_too_little_speech() {
    let config = ChunkerConfig { silence_hangover_ms: 10, min_speech_ms: 3, max_chunk_ms: 100, pre_roll_ms: 0 };
    let mut c: SpeechChunker<u8> = SpeechChunker::new(config);
    assert!(c.push_mono(&[1, 1], 1_000, true).is_none());
    assert!(c.flush().is_none());
    assert!(c.push_mono(&[1, 1, 1], 1_000, true).is_none());
    assert_eq!(c.flush().map(|k| k.samples), Some(vec![1, 1, 1]));
    assert!(c.flush().is_none());
}

#[test]
fn default_chunker_config() {
    let c = ChunkerConfig::default();
    assert_eq!((c.silence_hangover_ms, c.min_speech_ms, c.max_chunk_ms, c.pre_roll_ms), (700, 300, 12_000, 250));
}

#[test]
fn each_source_is_chunked_on_its_own() {
    // The microphone speaks for 2 s then falls silent while system output
    // is silent throughout at another rate: the system frames neither close
    // nor reset the microphone's chunk.
    let mut chunkers: SourceChunkers<f32> = SourceChunkers::new(ChunkerConfig::default());
    let mut mic_chunks = Vec::new();
    let mut system_chunks = Vec::new();
    let frames_per_second = RATE as usize / FRAME;
    for i in 0..(4 * frames_per_second) {
        let mic = if i < 2 * frames_per_second { speech_frame() } else { silent_frame() };
        if let Some(c) = chunkers.push_mono(SourceKind::Microphone, &mic, RATE, is_speech(&mic)) {
            mic_chunks.push(c);
        }
        let system = vec![0.0f32; 960];
        if let Some(c) = chunkers.push_mono(SourceKind::SystemOutput, &system, 48_000, false) {
            system_chunks.push(c);
        }
    }
    assert_eq!(mic_chunks.len(), 1);
    assert_eq!(mic_chunks[0].sample_rate, RATE);
    assert!(system_chunks.is_empty());
    assert!(chunkers.flush(SourceKind::Microphone).is_none());
    assert!(chunkers.flush(SourceKind::SystemOutput).is_none());
}
