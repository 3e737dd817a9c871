//! Text shown by the player's widgets: times, sample rates and the
//! "now playing" line.

use vstd::prelude::*;

use crate::library::{spec_title_or_stem, Track};
use crate::text::{all_white, is_blank, push_char, push_str};
use crate::time::Duration;

verus! {

/// The decimal digit character for `d < 10`.
pub open spec fn digit(d: nat) -> char {
    seq!['0', '1', '2', '3', '4', '5', '6', '7', '8', '9'][d as int]
}

/// `n` in decimal, without leading zeros.
pub open spec fn decimal(n: nat) -> Seq<char>
    decreases n,
{
    if n < 10 {
        seq![digit(n)]
    } else {
        decimal(n / 10).push(digit(n % 10))
    }
}

/// `n` in decimal, zero-padded to at least two digits (`{:02}`).
pub open spec fn pad2(n: nat) -> Seq<char> {
    if n < 10 {
        seq!['0'] + decimal(n)
    } else {
        decimal(n)
    }
}

/// `h:mm:ss` from an hour on, `m:ss` below.
pub open spec fn clock_text(secs: nat) -> Seq<char> {
    if secs >= 3600 {
        decimal(secs / 3600) + seq![':'] + pad2((secs % 3600) / 60) + seq![':'] + pad2(secs % 60)
    } else {
        decimal(secs / 60) + seq![':'] + pad2(secs % 60)
    }
}

fn digit_char(d: u64) -> (c: char)
    requires
        d < 10,
    ensures
        c == digit(d as nat),
{
    let digits: [char; 10] = ['0', '1', '2', '3', '4', '5', '6', '7', '8', '9'];
    proof {
        assert(digits@ =~= seq!['0', '1', '2', '3', '4', '5', '6', '7', '8', '9']);
    }
    digits[d as usize]
}

pub(crate) fn push_decimal(s: &mut String, n: u64)
    ensures
        final(s)@ == old(s)@ + decimal(n as nat),
    decreases n,
{
    if n >= 10 {
        push_decimal(s, n / 10);
    }
    let c = digit_char(n % 10);
    push_char(s, c);
    proof {
        if n < 10 {
            assert(old(s)@ + decimal(n as nat) == old(s)@.push(c));
        } else {
            assert(old(s)@ + decimal(n as nat) == (old(s)@ + decimal((n / 10) as nat)).push(c));
        }
    }
}

fn push_pad2(s: &mut String, n: u64)
    ensures
        final(s)@ == old(s)@ + pad2(n as nat),
{
    if n < 10 {
        push_char(s, '0');
    }
    push_decimal(s, n);
}

pub fn format_time(d: Duration) -> (r: String)
    ensures
        r@ == clock_text(d.secs_view() as nat),
{
    let secs = d.as_secs();
    let mut s = String::new();
    if secs >= 3600 {
        push_decimal(&mut s, secs / 3600);
        push_char(&mut s, ':');
        push_pad2(&mut s, (secs % 3600) / 60);
        push_char(&mut s, ':');
        push_pad2(&mut s, secs % 60);
    } else {
        push_decimal(&mut s, secs / 60);
        push_char(&mut s, ':');
        push_pad2(&mut s, secs % 60);
    }
    s
}

/// `2^s`.
pub open spec fn two_to(s: nat) -> nat
    decreases s,
{
    if s == 0 {
        1
    } else {
        2 * two_to((s - 1) as nat)
    }
}

/// The least shift `s` (from `from` on, at most 64) with
/// `rate * 2^s >= 1000 * 2^52`: scaled by `2^s`, `rate / 1000` has a 53-bit
/// integer part, as the mantissa of the `f64` nearest to it.
pub open spec fn mantissa_shift(rate: nat, from: nat) -> nat
    decreases 64 - from,
{
    if from >= 64 || rate * two_to(from) >= 1000 * two_to(52) {
        from
    } else {
        mantissa_shift(rate, from + 1)
    }
}

/// The `f64` nearest to `rate / 1000` lies above it: the fraction dropped
/// from `rate * 2^s / 1000` (with `s` the mantissa shift) exceeds one half.
/// (That fraction is a multiple of 1/125, so it is never exactly one half.)
pub open spec fn f64_rounds_up(rate: nat) -> bool {
    let s = mantissa_shift(rate, 0);
    ((rate * two_to(s)) / 8) % 125 >= 63
}

/// `rate / 1000` rounded to hundredths the way `{:.2}` rounds the nearest
/// `f64`: by the third decimal, ties (only when the `f64` is exact, i.e.
/// `rate` is a multiple of 125) to even, and otherwise on which side of the
/// exact value the `f64` lies.
pub open spec fn khz_hundredths(rate: nat) -> nat {
    let q = rate / 10;
    let d = rate % 10;
    if d > 5 {
        q + 1
    } else if d < 5 {
        q
    } else if rate % 125 == 0 {
        if q % 2 == 1 {
            q + 1
        } else {
            q
        }
    } else if f64_rounds_up(rate) {
        q + 1
    } else {
        q
    }
}

/// The sample rate in kHz without the unit: whole rates as an integer,
/// others with two decimals and trailing zeros (and a bare point) dropped.
pub open spec fn khz_number(rate: nat) -> Seq<char> {
    if rate % 1000 == 0 {
        decimal(rate / 1000)
    } else {
        let h = khz_hundredths(rate);
        let f = h % 100;
        if f == 0 {
            decimal(h / 100)
        } else if f % 10 == 0 {
            decimal(h / 100) + seq!['.', digit(f / 10)]
        } else {
            decimal(h / 100) + seq!['.'] + pad2(f)
        }
    }
}

/// Winamp-style sample-rate label: "44.1kHz", "48kHz", "22.05kHz".
pub open spec fn khz_text(rate: nat) -> Seq<char> {
    khz_number(rate) + seq!['k', 'H', 'z']
}

fn rounds_up(rate: u32) -> (r: bool)
    ensures
        r == f64_rounds_up(rate as nat),
{
    let target: u128 = 4503599627370496000;
    proof {
        lemma_two_to_52();
    }
    let mut s: u32 = 0;
    let mut v: u128 = rate as u128;
    proof {
        assert(two_to(0) == 1);
    }
    while s < 64 && v < target
        invariant
            target == 1000 * two_to(52),
            target == 4503599627370496000,
            s <= 64,
            v == (rate as nat) * two_to(s as nat),
            v < 2 * target,
            mantissa_shift(rate as nat, 0) == mantissa_shift(rate as nat, s as nat),
        decreases 64 - s,
    {
        proof {
            assert(two_to((s + 1) as nat) == 2 * two_to(s as nat));
            assert((rate as nat) * two_to((s + 1) as nat) == 2 * ((rate as nat) * two_to(s as nat)))
                by (nonlinear_arith)
                requires
                    two_to((s + 1) as nat) == 2 * two_to(s as nat),
            ;
            lemma_shift_step(rate as nat, s as nat);
        }
        v = v * 2;
        s = s + 1;
    }
    proof {
        lemma_shift_stop(rate as nat, s as nat);
    }
    (v / 8) % 125 >= 63
}

proof fn lemma_two_to_52()
    ensures
        two_to(52) == 4503599627370496,
{
    reveal_with_fuel(two_to, 53);
}

proof fn lemma_shift_step(rate: nat, s: nat)
    requires
        s < 64,
        rate * two_to(s) < 1000 * two_to(52),
    ensures
        mantissa_shift(rate, s) == mantissa_shift(rate, s + 1),
{
}

proof fn lemma_shift_stop(rate: nat, s: nat)
    requires
        s >= 64 || rate * two_to(s) >= 1000 * two_to(52),
    ensures
        mantissa_shift(rate, s) == s,
{
}

fn hundredths(rate: u32) -> (h: u32)
    ensures
        h == khz_hundredths(rate as nat),
{
    let q = rate / 10;
    let d = rate % 10;
    if d > 5 {
        q + 1
    } else if d < 5 {
        q
    } else if rate % 125 == 0 {
        if q % 2 == 1 {
            q + 1
        } else {
            q
        }
    } else if rounds_up(rate) {
        q + 1
    } else {
        q
    }
}

/// Winamp-style sample-rate label: "44.1kHz", "48kHz", "22.05kHz".
pub fn format_khz(rate: u32) -> (r: String)
    ensures
        r@ == khz_text(rate as nat),
{
    let mut s = String::new();
    if rate % 1000 == 0 {
        push_decimal(&mut s, (rate / 1000) as u64);
    } else {
        let h = hundredths(rate);
        let f = h % 100;
        push_decimal(&mut s, (h / 100) as u64);
        if f != 0 {
            push_char(&mut s, '.');
            if f % 10 == 0 {
                let c = digit_char((f / 10) as u64);
                push_char(&mut s, c);
            } else {
                push_pad2(&mut s, f as u64);
            }
        }
    }
    proof {
        reveal_strlit("kHz");
    }
    push_str(&mut s, "kHz");
    s
}

/// A tag that is present and not blank.
pub open spec fn shown_tag(tag: Option<String>) -> Option<Seq<char>> {
    match tag {
        Some(s) => if all_white(s@) {
            None
        } else {
            Some(s@)
        },
        None => None,
    }
}

/// "Artist - Title - Album :: 3:45 :: 44.1kHz": missing or blank parts are
/// skipped along with their separators; the title falls back to the file
/// stem like the playlist does.
pub open spec fn now_playing_text(t: Track, duration: Option<Duration>, sample_rate: Option<u32>) -> Seq<char> {
    let sep = seq![' ', '-', ' '];
    let names = (match shown_tag(t.artist) {
        Some(a) => a + sep,
        None => seq![],
    }) + spec_title_or_stem(t) + (match shown_tag(t.album) {
        Some(b) => sep + b,
        None => seq![],
    });
    let with_time = match duration {
        Some(d) => names + seq![' ', ':', ':', ' '] + clock_text(d.secs_view() as nat),
        None => names,
    };
    match sample_rate {
        Some(r) => with_time + seq![' ', ':', ':', ' '] + khz_text(r as nat),
        None => with_time,
    }
}

fn push_text(s: &mut String, t: &String)
    ensures
        final(s)@ == old(s)@ + t@,
{
    push_str(s, t.as_str());
}

/// "Now playing" line: "Artist - Title - Album :: 3:45 :: 44.1kHz".
/// Missing parts are skipped along with their separators; the title
/// falls back to the file stem like the playlist does.
pub fn now_playing(track: &Track, duration: Option<Duration>, sample_rate: Option<u32>) -> (r: String)
    ensures
        r@ == now_playing_text(*track, duration, sample_rate),
{
    proof {
        reveal_strlit(" - ");
        reveal_strlit(" :: ");
    }
    let mut line = String::new();
    if let Some(a) = &track.artist {
        if !is_blank(a.as_str()) {
            push_text(&mut line, a);
            push_str(&mut line, " - ");
        }
    }
    let title = track.title_or_stem();
    push_text(&mut line, &title);
    if let Some(b) = &track.album {
        if !is_blank(b.as_str()) {
            push_str(&mut line, " - ");
            push_text(&mut line, b);
        }
    }
    if let Some(d) = duration {
        push_str(&mut line, " :: ");
        let t = format_time(d);
        push_text(&mut line, &t);
    }
    if let Some(rate) = sample_rate {
        push_str(&mut line, " :: ");
        let k = format_khz(rate);
        push_text(&mut line, &k);
    }
    line
}


/// `s` ends with `x`.
pub open spec fn ends_with(s: Seq<char>, x: Seq<char>) -> bool {
    s.len() >= x.len() && s.skip(s.len() - x.len()) == x
}

/// Law: the parts of the "now playing" line are independent. A shown
/// (present, non-blank) artist is put in front with " - " of the line
/// without it, and a blank or missing one changes nothing; a shown album is
/// put after the line without it with " - ", whatever the artist, and a
/// blank or missing one changes nothing; the title (or file stem) is always
/// there; the time and the sample rate follow after " :: ".
pub proof fn lemma_now_playing_parts(t: Track, duration: Option<Duration>, sample_rate: Option<u32>)
    ensures
        ({
            let no_artist = Track { artist: None, ..t };
            match shown_tag(t.artist) {
                Some(a) => now_playing_text(t, None, None) == a + " - "@ + now_playing_text(
                    no_artist,
                    None,
                    None,
                ),
                None => now_playing_text(t, None, None) == now_playing_text(no_artist, None, None),
            }
        }),
        ({
            let no_album = Track { album: None, ..t };
            match shown_tag(t.album) {
                Some(b) => now_playing_text(t, None, None) == now_playing_text(no_album, None, None)
                    + " - "@ + b && ends_with(now_playing_text(t, None, None), " - "@ + b),
                None => now_playing_text(t, None, None) == now_playing_text(no_album, None, None),
            }
        }),
        now_playing_text(Track { artist: None, album: None, ..t }, None, None) == spec_title_or_stem(t),
        duration matches Some(d) ==> now_playing_text(t, duration, None) == now_playing_text(
            t,
            None,
            None,
        ) + " :: "@ + clock_text(d.secs_view() as nat),
        sample_rate matches Some(r) ==> now_playing_text(t, duration, sample_rate)
            == now_playing_text(t, duration, None) + " :: "@ + khz_text(r as nat),
{
    reveal_strlit(" - ");
    reveal_strlit(" :: ");
    let sep = seq![' ', '-', ' '];
    assert(" - "@ =~= sep);
    assert(" :: "@ =~= seq![' ', ':', ':', ' ']);
    let title = spec_title_or_stem(t);
    assert(spec_title_or_stem(Track { artist: None, ..t }) == title);
    assert(spec_title_or_stem(Track { album: None, ..t }) == title);
    assert(spec_title_or_stem(Track { artist: None, album: None, ..t }) == title);
    assert(shown_tag(None) is None);
    let art = match shown_tag(t.artist) {
        Some(a) => a + sep,
        None => seq![],
    };
    let alb = match shown_tag(t.album) {
        Some(b) => sep + b,
        None => seq![],
    };
    assert(now_playing_text(t, None, None) == art + title + alb);
    assert(now_playing_text(Track { artist: None, ..t }, None, None) == seq![] + title + alb);
    assert(now_playing_text(Track { album: None, ..t }, None, None) == art + title + seq![]);
    assert(now_playing_text(Track { artist: None, album: None, ..t }, None, None) =~= title);
    if let Some(a) = shown_tag(t.artist) {
        assert(art + title + alb =~= a + sep + (seq![] + title + alb));
    } else {
        assert(art + title + alb =~= seq![] + title + alb);
    }
    if let Some(b) = shown_tag(t.album) {
        let line = art + title + alb;
        assert(line =~= art + title + seq![] + sep + b);
        assert(line.skip(line.len() - (sep + b).len()) =~= sep + b);
    } else {
        assert(art + title + alb =~= art + title + seq![]);
    }
}

} // verus!
