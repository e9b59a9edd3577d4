//! The text side of transcription: segments tagged with their source, the
//! assembly of an engine's output pieces into one line of text, and which
//! chunks become segments.

use vstd::prelude::*;

use crate::source::SourceKind;
use crate::text::{chars_of, trim_whitespace, trim_ws};

verus! {

/// Speech models are run on 16 kHz mono audio; every chunk is resampled to
/// this rate before inference.
pub const WHISPER_SAMPLE_RATE: u32 = 16_000;

/// The shortest clip the engine accepts, in samples at
/// `WHISPER_SAMPLE_RATE` (1.1 s); shorter clips are padded with silence.
pub const MIN_WHISPER_SAMPLES: usize = 17_600;

/// Failures of a speech engine.
#[derive(Debug, Clone, PartialEq, Eq)]
pub enum TranscribeError {
    ModelLoad(String),
    Inference(String),
}

/// One finished piece of transcript, carrying the tag of the audio it came
/// from.
#[derive(Debug, Clone, PartialEq, Eq)]
pub struct TranscriptSegment {
    pub source: SourceKind,
    pub text: String,
    /// Duration of the speech audio this text came from, in milliseconds.
    pub speech_duration_ms: u64,
}

/// The short name of a source in log lines.
pub fn label(source: SourceKind) -> (l: &'static str)
    ensures
        source == SourceKind::Microphone ==> l@ == "mic"@,
        source == SourceKind::SystemOutput ==> l@ == "system"@,
{
    match source {
        SourceKind::Microphone => "mic",
        SourceKind::SystemOutput => "system",
    }
}

/// The segment a transcribed chunk becomes: none when the engine produced
/// no text (the chunk was noise).
pub fn segment_for(source: SourceKind, text: String, speech_duration_ms: u64) -> (seg: Option<
    TranscriptSegment,
>)
    ensures
        text@.len() == 0 ==> seg is None,
        text@.len() > 0 ==> seg == Some(TranscriptSegment { source, text, speech_duration_ms }),
{
    if text.as_str().is_empty() {
        None
    } else {
        Some(TranscriptSegment { source, text, speech_duration_ms })
    }
}

/// The text of a run of engine output pieces: each trimmed, empty ones
/// skipped, the rest joined by single spaces.
pub open spec fn join_pieces(pieces: Seq<Seq<char>>) -> Seq<char>
    decreases pieces.len(),
{
    if pieces.len() == 0 {
        Seq::empty()
    } else {
        let so_far = join_pieces(pieces.drop_last());
        let piece = trim_ws(pieces.last());
        if piece.len() == 0 {
            so_far
        } else if so_far.len() == 0 {
            piece
        } else {
            so_far + " "@ + piece
        }
    }
}

/// Joins the engine's output pieces into one line of text.
pub fn join_transcript_pieces(pieces: &[String]) -> (text: String)
    ensures
        text@ == join_pieces(pieces@.map_values(|p: String| p@)),
{
    let ghost pv = pieces@.map_values(|p: String| p@);
    let mut text = String::new();
    let mut i: usize = 0;
    while i < pieces.len()
        invariant
            i <= pieces@.len(),
            pv == pieces@.map_values(|p: String| p@),
            text@ == join_pieces(pv.take(i as int)),
        decreases pieces@.len() - i,
    {
        proof {
            assert(pv.take(i + 1).drop_last() =~= pv.take(i as int));
            assert(pv.take(i + 1).last() == pieces@[i as int]@);
        }
        let cs = chars_of(pieces[i].as_str());
        let piece = trim_whitespace(cs.as_slice());
        if piece.len() > 0 {
            if !text.as_str().is_empty() {
                text.push(' ');
            }
            let ghost before = text@;
            let mut k: usize = 0;
            while k < piece.len()
                invariant
                    k <= piece@.len(),
                    text@ == before + piece@.take(k as int),
                decreases piece@.len() - k,
            {
                text.push(piece[k]);
                k = k + 1;
                proof {
                    assert(text@ =~= before + piece@.take(k as int));
                }
            }
            proof {
                assert(piece@.take(piece@.len() as int) =~= piece@);
                reveal_strlit(" ");
                assert(text@ =~= join_pieces(pv.take(i + 1)));
            }
        }
        i = i + 1;
    }
    proof {
        assert(pv.take(pieces@.len() as int) =~= pv);
    }
    text
}

} // verus!
