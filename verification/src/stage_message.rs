//! The operator's message on the Stage Display and the Output overlay:
//! what is accepted, and when a timed message clears itself.
use crate::project::{lit_string, opt_is};
use crate::song_import::{utf8_len, utf8_len_below};
use crate::text::{chars_of, eq_chars, string_of, trim, trim_chars};
use vstd::prelude::*;

verus! {

/// Longest stage message or overlay text, in bytes.
pub const MAX_MESSAGE_BYTES: u64 = 500;

/// Longest time a stage message may stay before clearing itself.
pub const MAX_MESSAGE_SECS: u64 = 3600;

/// What setting a stage message gives: the trimmed message and its
/// auto-clear delay (a zero delay means none), or why it is refused.
pub open spec fn stage_message_result(message: Seq<char>, duration_secs: Option<u64>) -> Result<(Seq<char>, Option<u64>), Seq<char>> {
    let t = trim(message);
    let dur = match duration_secs {
        Some(s) => if s > 0 { Some(s) } else { None },
        None => None,
    };
    if t.len() == 0 {
        Err("stage message must not be empty"@)
    } else if utf8_len(t) > MAX_MESSAGE_BYTES {
        Err("stage message must be 500 characters or fewer"@)
    } else if dur matches Some(s) && s > MAX_MESSAGE_SECS {
        Err("duration must be between 1 and 3600 seconds"@)
    } else {
        Ok((t, dur))
    }
}

/// Check a stage message (see [`stage_message_result`]).
pub fn check_stage_message(message: &str, duration_secs: Option<u64>) -> (r: Result<(String, Option<u64>), String>)
    ensures
        match stage_message_result(message@, duration_secs) {
            Ok(v) => r matches Ok(w) && w.0@ == v.0 && w.1 == v.1,
            Err(m) => r matches Err(e) && e@ == m,
        },
{
    let t = trim_chars(&chars_of(message));
    if t.len() == 0 {
        return Err(lit_string("stage message must not be empty"));
    }
    if !utf8_len_below(&t, MAX_MESSAGE_BYTES + 1) {
        return Err(lit_string("stage message must be 500 characters or fewer"));
    }
    let dur = match duration_secs {
        Some(s) => if s > 0 { Some(s) } else { None },
        None => None,
    };
    match dur {
        Some(s) => {
            if s > MAX_MESSAGE_SECS {
                return Err(lit_string("duration must be between 1 and 3600 seconds"));
            }
        },
        None => {},
    }
    Ok((string_of(&t), dur))
}

/// A timed stage message clears itself only if no newer message was set
/// since (`generation` is still current) and it is still the one shown.
pub fn stage_message_expired(generation: u64, current_generation: u64, shown: &Option<String>, message: &str) -> (r: bool)
    ensures
        r == (generation == current_generation && opt_is(*shown, message@)),
{
    if generation != current_generation {
        return false;
    }
    match shown {
        Some(s) => eq_chars(&chars_of(s.as_str()), &chars_of(message)),
        None => false,
    }
}

/// What setting the overlay gives: its trimmed text, or why it is refused
/// (no text and no image, or text over 500 bytes).
pub open spec fn overlay_result(text: Seq<char>, has_background: bool) -> Result<Seq<char>, Seq<char>> {
    let t = trim(text);
    if t.len() == 0 && !has_background {
        Err("overlay must have text or image"@)
    } else if utf8_len(t) > MAX_MESSAGE_BYTES {
        Err("overlay text must be 500 characters or fewer"@)
    } else {
        Ok(t)
    }
}

/// Check an overlay (see [`overlay_result`]).
pub fn check_overlay(text: &str, has_background: bool) -> (r: Result<String, String>)
    ensures
        match overlay_result(text@, has_background) {
            Ok(t) => r matches Ok(s) && s@ == t,
            Err(m) => r matches Err(e) && e@ == m,
        },
{
    let t = trim_chars(&chars_of(text));
    if t.len() == 0 && !has_background {
        return Err(lit_string("overlay must have text or image"));
    }
    if !utf8_len_below(&t, MAX_MESSAGE_BYTES + 1) {
        return Err(lit_string("overlay text must be 500 characters or fewer"));
    }
    Ok(string_of(&t))
}

} // verus!
