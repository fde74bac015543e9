//! Quitting: whether an exit animation plays on the audience windows first.
use crate::text::{chars_of, string_of, trim, trim_chars};
use vstd::prelude::*;

verus! {

/// How the application quits.
#[derive(Clone, Copy, Debug, PartialEq, Eq, Structural)]
pub enum QuitPlan {
    /// Quit at once; `missing_video` when a video was configured but is not
    /// a readable file (worth a note in the log).
    Instant { missing_video: bool },
    /// Play the exit animation on the visible Output / Stage windows first.
    PlayOutro,
}

/// The configured exit animation's path, trimmed (empty when none).
pub fn exit_video(configured: &Option<String>) -> (r: String)
    ensures
        match configured {
            Some(p) => r@ == trim(p@),
            None => r@ == Seq::<char>::empty(),
        },
{
    match configured {
        Some(p) => string_of(&trim_chars(&chars_of(p.as_str()))),
        None => String::new(),
    }
}

/// The exit animation plays only when the video (`video`, already trimmed)
/// is a file (`is_file`) and the Output or the Stage window is showing;
/// otherwise the application quits at once.
pub fn quit_plan(video: &str, is_file: bool, output_on: bool, stage_on: bool) -> (r: QuitPlan)
    ensures
        ({
            let file_ok = video@.len() > 0 && is_file;
            &&& (file_ok && (output_on || stage_on)) ==> r == QuitPlan::PlayOutro
            &&& !(file_ok && (output_on || stage_on)) ==> r == (QuitPlan::Instant {
                missing_video: video@.len() > 0 && !file_ok,
            })
        }),
{
    let file_ok = video.unicode_len() > 0 && is_file;
    if !file_ok || (!output_on && !stage_on) {
        QuitPlan::Instant { missing_video: video.unicode_len() > 0 && !file_ok }
    } else {
        QuitPlan::PlayOutro
    }
}

} // verus!
