//! Progress events. The pipeline measures progress in hundredths of a
//! percent, an integer from zero to the scale; the host converts to
//! whatever its presentation layer expects. Extraction itself is pure,
//! so the fine-grained per-unit events of a stage are computed here and
//! handed to the host, which alone talks to the sink.
use crate::num::{dec_digits, u64_to_chars};
use crate::text::{chars_of, string_of};
use vstd::prelude::*;

verus! {

/// One hundred percent, in hundredths of a percent.
pub const PROGRESS_SCALE: u32 = 10000;

/// Clamps a raw progress value to the reportable range.
pub fn clamp_progress(p: u32) -> (r: u32)
    ensures
        r == if p > PROGRESS_SCALE {
            PROGRESS_SCALE
        } else {
            p
        },
{
    if p > PROGRESS_SCALE {
        PROGRESS_SCALE
    } else {
        p
    }
}

/// The share of work done, scaled: `done` of `total`, in hundredths of a
/// percent.
pub fn scaled_progress(done: usize, total: usize) -> (r: u32)
    requires
        total > 0,
        done <= total,
    ensures
        r == done as int * PROGRESS_SCALE as int / total as int,
        r <= PROGRESS_SCALE,
{
    let r64: u128 = (done as u128) * (PROGRESS_SCALE as u128) / (total as u128);
    proof {
        assert(done as int * PROGRESS_SCALE as int <= total as int * PROGRESS_SCALE as int) by (nonlinear_arith)
            requires
                done <= total,
        ;
        assert(done as int * PROGRESS_SCALE as int / total as int <= total as int * PROGRESS_SCALE as int / total as int) by {
            vstd::arithmetic::div_mod::lemma_div_is_ordered(
                done as int * PROGRESS_SCALE as int,
                total as int * PROGRESS_SCALE as int,
                total as int,
            );
        }
        assert(total as int * PROGRESS_SCALE as int / total as int == PROGRESS_SCALE as int) by (nonlinear_arith)
            requires
                total > 0,
        ;
    }
    r64 as u32
}

/// One progress event: the stage it belongs to, the overall progress in
/// hundredths of a percent, and a human-readable message.
pub struct ScrapingProgress {
    pub stage: String,
    pub progress: u32,
    pub message: String,
}

#[verifier::ext_equal]
pub ghost struct ScrapingProgressV {
    pub stage: Seq<char>,
    pub progress: u32,
    pub message: Seq<char>,
}

impl View for ScrapingProgress {
    type V = ScrapingProgressV;

    open spec fn view(&self) -> ScrapingProgressV {
        ScrapingProgressV {
            stage: self.stage@,
            progress: self.progress,
            message: self.message@,
        }
    }
}

impl ScrapingProgress {
    /// Builds one event.
    pub fn new(stage: &str, progress: u32, message: &str) -> (e: Self)
        ensures
            e@.stage == stage@,
            e@.progress == progress,
            e@.message == message@,
    {
        ScrapingProgress {
            stage: stage.to_owned(),
            progress,
            message: message.to_owned(),
        }
    }
}

/// The message of a per-unit progress event: which unit of how many is
/// being processed.
pub open spec fn row_message_spec(noun: Seq<char>, processed: int, total: int) -> Seq<char> {
    "Processing "@ + noun + seq![' '] + dec_digits(processed) + " of "@ + dec_digits(total)
}

/// Builds the progress event for one processed unit of a stage: the
/// stage's share done so far, scaled, with the counting message.
pub fn row_progress_event(stage: &str, noun: &str, processed: usize, total: usize) -> (e:
    ScrapingProgress)
    requires
        total > 0,
        processed <= total,
    ensures
        e@.stage == stage@,
        e@.progress == processed as int * PROGRESS_SCALE as int / total as int,
        e@.message == row_message_spec(noun@, processed as int, total as int),
{
    let p = scaled_progress(processed, total);
    let mut m = chars_of("Processing ");
    let mut nv = chars_of(noun);
    m.append(&mut nv);
    m.push(' ');
    let mut pd = u64_to_chars(processed as u64);
    m.append(&mut pd);
    let mut of = chars_of(" of ");
    m.append(&mut of);
    let mut td = u64_to_chars(total as u64);
    m.append(&mut td);
    let message = string_of(&m);
    proof {
        assert(message@ =~= row_message_spec(noun@, processed as int, total as int));
    }
    ScrapingProgress { stage: stage.to_owned(), progress: p, message }
}

} // verus!
