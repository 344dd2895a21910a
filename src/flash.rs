use vstd::prelude::*;

verus! {

/// How long, in milliseconds, a blinking element such as the input cursor
/// stays in one state before it toggles.
pub const FLASH_TIME_MS: u64 = 500;

/// How long, in milliseconds, the terminal takes to type one character.
pub const TYPE_TIME_MS: u64 = 20;

/// The time from `then` to `now`, in milliseconds; none if `now` is earlier.
pub open spec fn elapsed(now: u64, then: u64) -> nat {
    if now >= then {
        (now - then) as nat
    } else {
        0
    }
}

/// Whether a blinking element is shown at `now`, and the instant of its
/// last toggle afterwards, given that instant `then` before.
pub open spec fn flash_step(now: u64, then: u64) -> (bool, u64) {
    if elapsed(now, then) > 2 * FLASH_TIME_MS {
        (true, now)
    } else {
        (elapsed(now, then) > FLASH_TIME_MS, then)
    }
}

/// Whether a blinking element is shown at `now`, given the instant `then` of
/// its last toggle (both in milliseconds on one clock). After a gap of more
/// than two periods the cycle restarts: `then` becomes `now` and the element
/// is shown. Otherwise it is shown once more than one period has passed.
pub fn check_flash(now: u64, then: &mut u64) -> (shown: bool)
    ensures
        (shown, *final(then)) == flash_step(now, *old(then)),
{
    let time_since: u64 = if now >= *then {
        now - *then
    } else {
        0
    };
    if time_since > 2 * FLASH_TIME_MS {
        *then = now;
        true
    } else {
        time_since > FLASH_TIME_MS
    }
}

/// Half a period after a toggle the element is hidden, one and a half
/// periods after it is shown, and both leave the toggle where it was; two and
/// a half periods after it the element is shown and the cycle restarts there.
pub proof fn lemma_flash_cycle(t0: u64)
    requires
        t0 + 5 * FLASH_TIME_MS / 2 <= u64::MAX,
    ensures
        flash_step((t0 + FLASH_TIME_MS / 2) as u64, t0) == (false, t0),
        flash_step((t0 + 3 * FLASH_TIME_MS / 2) as u64, t0) == (true, t0),
        flash_step((t0 + 5 * FLASH_TIME_MS / 2) as u64, t0) == (true, (t0 + 5 * FLASH_TIME_MS
            / 2) as u64),
{
}

} // verus!
