//! Now-playing measures: which player property they report, and the cover
//! art location they hand to image meters.
use crate::ini::MeasureConfig;
use crate::measures::{lower_or, option, or_default, ov, prop};
use crate::text::{lower, starts_with, starts_with_str, str_eq, string_of, to_chars, trim, trim_bounds};
use vstd::prelude::*;
use vstd::utf8::{decode_utf8, encode_utf8, valid_utf8};

verus! {

/// Media property to extract from an MPRIS player.
#[derive(Debug, Clone, Copy, PartialEq, Eq)]
pub enum PlayerType {
    Title,
    Artist,
    Album,
    Cover,
    State,
    Status,
    Duration,
    Position,
    Progress,
    Volume,
}

/// The property a (lower-case) `PlayerType` names; unknown names give the
/// title.
pub open spec fn player_type_named(s: Seq<char>) -> PlayerType {
    if s == "artist"@ {
        PlayerType::Artist
    } else if s == "album"@ {
        PlayerType::Album
    } else if s == "cover"@ {
        PlayerType::Cover
    } else if s == "state"@ {
        PlayerType::State
    } else if s == "status"@ {
        PlayerType::Status
    } else if s == "duration"@ {
        PlayerType::Duration
    } else if s == "position"@ {
        PlayerType::Position
    } else if s == "progress"@ {
        PlayerType::Progress
    } else if s == "volume"@ {
        PlayerType::Volume
    } else {
        PlayerType::Title
    }
}

impl PlayerType {
    /// The property a now-playing measure's `PlayerType` option selects.
    pub fn from_config(config: &MeasureConfig) -> (r: PlayerType)
        requires
            config.properties.wf(),
        ensures
            r == player_type_named(lower(or_default(prop(*config, "playertype"@), "title"@))),
    {
        let s = lower_or(option(config, "playertype"), "title");
        let s = s.as_str();
        if str_eq(s, "artist") {
            PlayerType::Artist
        } else if str_eq(s, "album") {
            PlayerType::Album
        } else if str_eq(s, "cover") {
            PlayerType::Cover
        } else if str_eq(s, "state") {
            PlayerType::State
        } else if str_eq(s, "status") {
            PlayerType::Status
        } else if str_eq(s, "duration") {
            PlayerType::Duration
        } else if str_eq(s, "position") {
            PlayerType::Position
        } else if str_eq(s, "progress") {
            PlayerType::Progress
        } else if str_eq(s, "volume") {
            PlayerType::Volume
        } else {
            PlayerType::Title
        }
    }
}

/// The value of a hexadecimal digit byte.
pub open spec fn hex_value(b: u8) -> Option<u8> {
    if 48 <= b <= 57 {
        Some((b - 48) as u8)
    } else if 97 <= b <= 102 {
        Some((b - 97 + 10) as u8)
    } else if 65 <= b <= 70 {
        Some((b - 65 + 10) as u8)
    } else {
        None
    }
}

/// The value of a hexadecimal digit (`0-9`, `a-f`, `A-F`).
pub fn hex_digit(b: u8) -> (r: Option<u8>)
    ensures
        r == hex_value(b),
{
    if b >= 48 && b <= 57 {
        Some(b - 48)
    } else if b >= 97 && b <= 102 {
        Some(b - 97 + 10)
    } else if b >= 65 && b <= 70 {
        Some(b - 65 + 10)
    } else {
        None
    }
}

/// Percent-decoding of bytes: `%` and two hex digits stand for one byte;
/// a `%` not followed by two hex digits is kept, and the (at most two)
/// bytes after it are dropped.
pub open spec fn percent_decoded(b: Seq<u8>) -> Seq<u8>
    decreases b.len(),
{
    if b.len() == 0 {
        Seq::empty()
    } else if b[0] == 37 {
        if b.len() >= 3 {
            if hex_value(b[1]) is Some && hex_value(b[2]) is Some {
                seq![(hex_value(b[1])->0 * 16 + hex_value(b[2])->0) as u8] + percent_decoded(
                    b.skip(3),
                )
            } else {
                seq![37u8] + percent_decoded(b.skip(3))
            }
        } else {
            seq![37u8]
        }
    } else {
        seq![b[0]] + percent_decoded(b.skip(1))
    }
}

/// What `String::from_utf8_lossy` returns: the text with every invalid
/// sequence replaced by U+FFFD.
pub uninterp spec fn utf8_lossy(b: Seq<u8>) -> Seq<char>;

/// Calls `String::from_utf8_lossy`; valid UTF-8 comes back as the text it
/// encodes.
#[verifier::external_body]
fn lossy_text(bytes: &[u8]) -> (r: String)
    ensures
        r@ == utf8_lossy(bytes@),
        valid_utf8(bytes@) ==> r@ == decode_utf8(bytes@),
{
    String::from_utf8_lossy(bytes).to_string()
}

/// Decodes `%XX` escapes in the UTF-8 bytes of `s`, reading the result as
/// UTF-8 with invalid sequences replaced.
pub fn percent_decode_str(s: &str) -> (r: String)
    ensures
        r@ == utf8_lossy(percent_decoded(encode_utf8(s@))),
{
    let b = s.as_bytes();
    let mut out: Vec<u8> = Vec::new();
    let mut i: usize = 0;
    assert(out@ + percent_decoded(b@.skip(0)) =~= percent_decoded(b@)) by {
        assert(b@.skip(0) =~= b@);
    }
    while i < b.len()
        invariant
            b@ == encode_utf8(s@),
            i <= b@.len(),
            out@ + percent_decoded(b@.skip(i as int)) == percent_decoded(b@),
        decreases b.len() - i,
    {
        let ghost rest = b@.skip(i as int);
        if b[i] == 37 {
            if b.len() - i > 2 {
                assert(rest.skip(3) =~= b@.skip(i + 3));
                match (hex_digit(b[i + 1]), hex_digit(b[i + 2])) {
                    (Some(d1), Some(d2)) => {
                        assert((d1 << 4u8) | d2 == d1 * 16 + d2) by (bit_vector)
                            requires
                                d1 < 16,
                                d2 < 16,
                        ;
                        out.push((d1 << 4u8) | d2);
                    },
                    _ => {
                        out.push(37);
                    },
                }
                proof {
                    assert(out@ + percent_decoded(b@.skip(i + 3)) =~= percent_decoded(b@)) by {
                        assert(rest[1] == b@[i + 1] && rest[2] == b@[i + 2]);
                    }
                }
                i = i + 3;
            } else {
                out.push(37);
                proof {
                    assert(b@.skip(b@.len() as int) =~= Seq::<u8>::empty());
                    assert(out@ + percent_decoded(b@.skip(b@.len() as int)) =~= percent_decoded(b@));
                }
                i = b.len();
            }
        } else {
            out.push(b[i]);
            assert(rest.skip(1) =~= b@.skip(i + 1));
            assert(out@ + percent_decoded(b@.skip(i + 1)) =~= percent_decoded(b@));
            i = i + 1;
        }
    }
    assert(b@.skip(b@.len() as int) =~= Seq::<u8>::empty());
    assert(out@ =~= percent_decoded(b@));
    lossy_text(out.as_slice())
}

/// The cover art location of a player: trimmed, and a `file://` address
/// turned into the percent-decoded path it names.
pub open spec fn cover_art_location(url: Seq<char>) -> Seq<char> {
    let t = trim(url);
    if starts_with(t, "file://"@) {
        utf8_lossy(percent_decoded(encode_utf8(t.skip(7))))
    } else {
        t
    }
}

/// Normalises a cover art URL reported by a player.
pub fn normalize_cover_art_url(url: &str) -> (r: String)
    ensures
        r@ == cover_art_location(url@),
{
    let v = to_chars(url);
    assert(v@.subrange(0, v@.len() as int) =~= v@);
    let (a, b) = trim_bounds(&v, 0, v.len());
    let t = string_of(&v, a, b);
    let tv = to_chars(t.as_str());
    if starts_with_str(&tv, "file://") {
        proof {
            reveal_strlit("file://");
        }
        let rest = string_of(&tv, 7, tv.len());
        assert(rest@ =~= t@.skip(7));
        percent_decode_str(rest.as_str())
    } else {
        t
    }
}

} // verus!
verus! {

/// A command for the media player.
#[derive(Debug, Clone, PartialEq, Eq)]
pub enum PlayerCommand {
    PlayPause,
    Play,
    Pause,
    Stop,
    Next,
    Previous,
    /// Seek to this many seconds (text as written).
    SetPosition(String),
    /// Set the volume to this percentage (text as written).
    SetVolume(String),
    /// Anything else: not a command.
    Unknown,
}

/// How a (trimmed) command reads, by its lower-case form.
pub open spec fn player_command_matches(r: PlayerCommand, t: Seq<char>) -> bool {
    let l = lower(t);
    if l == "playpause"@ || l == "toggleplaypause"@ {
        r == PlayerCommand::PlayPause
    } else if l == "play"@ {
        r == PlayerCommand::Play
    } else if l == "pause"@ {
        r == PlayerCommand::Pause
    } else if l == "stop"@ {
        r == PlayerCommand::Stop
    } else if l == "next"@ {
        r == PlayerCommand::Next
    } else if l == "previous"@ || l == "prev"@ {
        r == PlayerCommand::Previous
    } else if crate::text::starts_with(l, "setposition"@) {
        r matches PlayerCommand::SetPosition(s) && s@ == trim(t.skip(11))
    } else if crate::text::starts_with(l, "setvolume"@) {
        r matches PlayerCommand::SetVolume(s) && s@ == trim(t.skip(9))
    } else {
        r == PlayerCommand::Unknown
    }
}

fn rest_after(v: &Vec<char>, n: usize) -> (r: String)
    requires
        n <= v@.len(),
    ensures
        r@ == trim(v@.skip(n as int)),
{
    let (a, b) = crate::text::trim_bounds(v, n, v.len());
    assert(v@.subrange(n as int, v@.len() as int) =~= v@.skip(n as int));
    crate::text::string_of(v, a, b)
}

/// Reads a NowPlaying command (trimmed, without regard to ASCII case).
pub fn parse_player_command(cmd: &str) -> (r: PlayerCommand)
    ensures
        player_command_matches(r, trim(cmd@)),
{
    let t = crate::text::trim_str(cmd);
    let v = crate::text::to_chars(t.as_str());
    let l = crate::text::lower_str(t.as_str());
    let ls = l.as_str();
    let lv = crate::text::to_chars(ls);
    proof {
        reveal_strlit("setposition");
        reveal_strlit("setvolume");
    }
    if str_eq(ls, "playpause") || str_eq(ls, "toggleplaypause") {
        PlayerCommand::PlayPause
    } else if str_eq(ls, "play") {
        PlayerCommand::Play
    } else if str_eq(ls, "pause") {
        PlayerCommand::Pause
    } else if str_eq(ls, "stop") {
        PlayerCommand::Stop
    } else if str_eq(ls, "next") {
        PlayerCommand::Next
    } else if str_eq(ls, "previous") || str_eq(ls, "prev") {
        PlayerCommand::Previous
    } else if crate::text::starts_with_str(&lv, "setposition") {
        PlayerCommand::SetPosition(rest_after(&v, 11))
    } else if crate::text::starts_with_str(&lv, "setvolume") {
        PlayerCommand::SetVolume(rest_after(&v, 9))
    } else {
        PlayerCommand::Unknown
    }
}

/// The D-Bus name of the player: the configured player's name (prefixed
/// with `org.mpris.MediaPlayer2.` unless it is already), else the first
/// bus name that is an MPRIS player.
pub open spec fn player_destination(player: Option<Seq<char>>, names: Seq<Seq<char>>) -> Option<
    Seq<char>,
> {
    match player {
        Some(p) => if crate::text::starts_with(p, "org.mpris.MediaPlayer2."@) {
            Some(p)
        } else {
            Some("org.mpris.MediaPlayer2."@ + p)
        },
        None => first_mpris(names, 0),
    }
}

/// The first name from `i` on that is an MPRIS player's.
pub open spec fn first_mpris(names: Seq<Seq<char>>, i: int) -> Option<Seq<char>>
    decreases names.len() - i,
{
    if i < 0 || i >= names.len() {
        None
    } else if crate::text::starts_with(names[i], "org.mpris.MediaPlayer2."@) {
        Some(names[i])
    } else {
        first_mpris(names, i + 1)
    }
}

/// Chooses the player's D-Bus name from the configured player and the
/// names on the session bus.
pub fn mpris_destination(player: Option<&str>, names: &Vec<String>) -> (r: Option<String>)
    ensures
        ov(r) == player_destination(crate::measures::opt_view(player), crate::text::views(names@)),
{
    let prefix = "org.mpris.MediaPlayer2.";
    match player {
        Some(p) => {
            let pv = crate::text::to_chars(p);
            if crate::text::starts_with_str(&pv, prefix) {
                Some(p.to_string())
            } else {
                let r = crate::bangs::concat3(prefix, p, "");
                proof {
                    reveal_strlit("");
                    assert(r@ =~= prefix@ + p@);
                }
                Some(r)
            }
        },
        None => {
            let ghost nv = crate::text::views(names@);
            let mut i: usize = 0;
            while i < names.len()
                invariant
                    nv == crate::text::views(names@),
                    prefix@ == "org.mpris.MediaPlayer2."@,
                    player is None,
                    i <= names@.len(),
                    first_mpris(nv, 0) == first_mpris(nv, i as int),
                decreases names.len() - i,
            {
                let nc = crate::text::to_chars(names[i].as_str());
                assert(nv[i as int] == names@[i as int]@);
                if crate::text::starts_with_str(&nc, prefix) {
                    return Some(names[i].clone());
                }
                i = i + 1;
            }
            None
        },
    }
}

} // verus!
