//! The prefix that tells a conversation who wrote a message, on what device, and when.

use chrono::Timelike;
use vstd::prelude::*;
use vstd::string::*;

verus! {

/// A moment as a clock in some zone shows it.
#[derive(Debug, PartialEq, Eq)]
pub struct LocalTime {
    /// The date, as year, month and day.
    pub date: String,
    pub hour: u32,
    pub minute: u32,
    /// The name of the zone.
    pub zone: String,
}

impl View for LocalTime {
    type V = (Seq<char>, u32, u32, Seq<char>);

    open spec fn view(&self) -> (Seq<char>, u32, u32, Seq<char>) {
        (self.date@, self.hour, self.minute, self.zone@)
    }
}

impl LocalTime {
    /// Whether the clock can show this.
    pub open spec fn well_formed(&self) -> bool {
        self.hour < 24 && self.minute < 60
    }
}

/// What the clock of the zone `zone` shows so many seconds after the epoch: the date, the hour,
/// the minute and the zone's name. It shows nothing where there is no such zone or the moment is
/// out of range.
pub uninterp spec fn zone_clock(utc_secs: i64, zone: Seq<char>) -> Option<
    (Seq<char>, u32, u32, Seq<char>),
>;

/// `chrono::DateTime::with_timezone`: the moment on the clock of a zone of `chrono_tz`, read by
/// `format` (as year, month and day), `hour`, `minute` and `timezone`. The hour is below 24 and
/// the minute below 60. What date and hour it is in a given zone, and how the zone is named, is
/// left to the two crates.
#[verifier::external_body]
fn read_zone_clock(utc_secs: i64, zone: &str) -> (shown: Option<LocalTime>)
    ensures
        zone_clock(utc_secs, zone@) == (match shown {
            Some(t) => Some(t@),
            None => None,
        }),
        shown matches Some(t) ==> t.hour < 24 && t.minute < 60,
{
    let tz: chrono_tz::Tz = zone.parse().ok()?;
    let at = chrono::DateTime::from_timestamp(utc_secs, 0)?.with_timezone(&tz);
    Some(LocalTime {
        date: at.format("%Y-%m-%d").to_string(),
        hour: at.hour(),
        minute: at.minute(),
        zone: at.timezone().to_string(),
    })
}

/// The digit of a number below ten.
pub open spec fn digit(n: int) -> char {
    if n == 0 {
        '0'
    } else if n == 1 {
        '1'
    } else if n == 2 {
        '2'
    } else if n == 3 {
        '3'
    } else if n == 4 {
        '4'
    } else if n == 5 {
        '5'
    } else if n == 6 {
        '6'
    } else if n == 7 {
        '7'
    } else if n == 8 {
        '8'
    } else {
        '9'
    }
}

/// A number below a hundred in two digits.
pub open spec fn two_digits(n: int) -> Seq<char> {
    seq![digit(n / 10), digit(n % 10)]
}

/// The time stamp of a moment: its date, hour and minute, and the zone's name.
pub open spec fn stamp(time: (Seq<char>, u32, u32, Seq<char>)) -> Seq<char> {
    time.0 + seq![' '] + two_digits(time.1 as int) + seq![':'] + two_digits(time.2 as int)
        + seq![' '] + time.3
}

/// Who wrote it: the user where the name is asked for, behind an at sign the device where the
/// device is.
pub open spec fn identity(
    username: Seq<char>,
    device: Option<Seq<char>>,
    prefix_username: bool,
    prefix_device: bool,
) -> Seq<char> {
    (if prefix_username {
        username
    } else {
        Seq::empty()
    }) + (if prefix_device {
        seq!['@'] + (match device {
            Some(slug) => slug,
            None => "unknown"@,
        })
    } else {
        Seq::empty()
    })
}

/// The message text with the prefix that the flags ask for.
pub open spec fn prefixed(
    text: Seq<char>,
    username: Seq<char>,
    device: Option<Seq<char>>,
    time: (Seq<char>, u32, u32, Seq<char>),
    prefix_username: bool,
    prefix_timestamp: bool,
    prefix_device: bool,
) -> Seq<char> {
    if !prefix_username && !prefix_timestamp && !prefix_device {
        text
    } else {
        seq!['['] + identity(username, device, prefix_username, prefix_device) + (
        if prefix_timestamp && (prefix_username || prefix_device) {
            seq![' ']
        } else {
            Seq::empty()
        }) + (if prefix_timestamp {
            stamp(time)
        } else {
            Seq::empty()
        }) + seq![']', ' '] + text
    }
}

fn digit_text(n: u32) -> (text: &'static str)
    requires
        n < 10,
    ensures
        text@ == seq![digit(n as int)],
{
    proof {
        reveal_strlit("0");
        reveal_strlit("1");
        reveal_strlit("2");
        reveal_strlit("3");
        reveal_strlit("4");
        reveal_strlit("5");
        reveal_strlit("6");
        reveal_strlit("7");
        reveal_strlit("8");
        reveal_strlit("9");
    }
    match n {
        0 => "0",
        1 => "1",
        2 => "2",
        3 => "3",
        4 => "4",
        5 => "5",
        6 => "6",
        7 => "7",
        8 => "8",
        _ => "9",
    }
}

fn append_two_digits(out: &mut String, n: u32)
    requires
        n < 100,
    ensures
        final(out)@ == old(out)@ + two_digits(n as int),
{
    let ghost before = out@;
    out.append(digit_text(n / 10));
    out.append(digit_text(n % 10));
    assert(out@ =~= before + two_digits(n as int));
}

fn append_stamp(out: &mut String, time: &LocalTime)
    requires
        time.well_formed(),
    ensures
        final(out)@ == old(out)@ + stamp(time@),
{
    proof {
        reveal_strlit(" ");
        reveal_strlit(":");
    }
    let ghost before = out@;
    out.append(time.date.as_str());
    out.append(" ");
    append_two_digits(out, time.hour);
    out.append(":");
    append_two_digits(out, time.minute);
    out.append(" ");
    out.append(time.zone.as_str());
    assert(out@ =~= before + stamp(time@));
}

/// The text to send for a message, with the prefix that the flags ask for.
pub fn build_cc_message_text(
    text: &str,
    username: &str,
    device_slug: Option<&str>,
    local_now: &LocalTime,
    prefix_username: bool,
    prefix_timestamp: bool,
    prefix_device: bool,
) -> (message: String)
    requires
        local_now.well_formed(),
    ensures
        message@ == prefixed(
            text@,
            username@,
            match device_slug {
                Some(slug) => Some(slug@),
                None => None,
            },
            local_now@,
            prefix_username,
            prefix_timestamp,
            prefix_device,
        ),
{
    if !prefix_username && !prefix_timestamp && !prefix_device {
        return text.to_owned();
    }
    proof {
        reveal_strlit("[");
        reveal_strlit("@");
        reveal_strlit(" ");
        reveal_strlit("] ");
    }
    let ghost device: Option<Seq<char>> = match device_slug {
        Some(slug) => Some(slug@),
        None => None,
    };
    let mut message: String = "[".to_owned();
    assert(message@ =~= seq!['[']);
    if prefix_username {
        message.append(username);
    }
    if prefix_device {
        message.append("@");
        match device_slug {
            Some(slug) => {
                message.append(slug);
            },
            None => {
                message.append("unknown");
            },
        }
    }
    assert(message@ =~= seq!['['] + identity(username@, device, prefix_username, prefix_device));
    if prefix_timestamp {
        if prefix_username || prefix_device {
            message.append(" ");
        }
        append_stamp(&mut message, local_now);
    }
    message.append("] ");
    message.append(text);
    assert(message@ =~= prefixed(
        text@,
        username@,
        device,
        local_now@,
        prefix_username,
        prefix_timestamp,
        prefix_device,
    ));
    message
}

/// The text to send for a message written so many seconds after the epoch, on the clock of the
/// zone `zone`. There is none where the zone's clock cannot show the moment.
pub fn cc_message_text_at(
    text: &str,
    username: &str,
    device_slug: Option<&str>,
    utc_secs: i64,
    zone: &str,
    prefix_username: bool,
    prefix_timestamp: bool,
    prefix_device: bool,
) -> (message: Option<String>)
    ensures
        match zone_clock(utc_secs, zone@) {
            None => message is None,
            Some(time) => message matches Some(m) && m@ == prefixed(
                text@,
                username@,
                match device_slug {
                    Some(slug) => Some(slug@),
                    None => None,
                },
                time,
                prefix_username,
                prefix_timestamp,
                prefix_device,
            ),
        },
{
    match read_zone_clock(utc_secs, zone) {
        Some(time) => Some(
            build_cc_message_text(
                text,
                username,
                device_slug,
                &time,
                prefix_username,
                prefix_timestamp,
                prefix_device,
            ),
        ),
        None => None,
    }
}

/// Without a flag the text goes out as it is; with one it goes out behind a bracket, unchanged.
pub proof fn the_text_itself_is_never_changed(
    text: Seq<char>,
    username: Seq<char>,
    device: Option<Seq<char>>,
    time: (Seq<char>, u32, u32, Seq<char>),
    prefix_username: bool,
    prefix_timestamp: bool,
    prefix_device: bool,
)
    ensures
        ({
            let message = prefixed(
                text,
                username,
                device,
                time,
                prefix_username,
                prefix_timestamp,
                prefix_device,
            );
            let start = message.len() - text.len();
            &&& start >= 0
            &&& message.subrange(start, message.len() as int) == text
            &&& !prefix_username && !prefix_timestamp && !prefix_device ==> message == text
            &&& prefix_username || prefix_timestamp || prefix_device ==> start >= 3 && message[0]
                == '[' && message.subrange(start - 2, start) == seq![']', ' ']
        }),
{
    let message = prefixed(
        text,
        username,
        device,
        time,
        prefix_username,
        prefix_timestamp,
        prefix_device,
    );
    let start = message.len() - text.len();
    assert(message.subrange(start, message.len() as int) =~= text);
    if prefix_username || prefix_timestamp || prefix_device {
        assert(message.subrange(start - 2, start) =~= seq![']', ' ']);
    }
}

/// The two digits of a number below a hundred are decimal digits and read back as the number.
pub proof fn two_digits_read_back(n: int)
    requires
        0 <= n < 100,
    ensures
        two_digits(n).len() == 2,
        '0' <= two_digits(n)[0] <= '9',
        '0' <= two_digits(n)[1] <= '9',
        10 * (two_digits(n)[0] as int - '0' as int) + (two_digits(n)[1] as int - '0' as int) == n,
{
    digit_is_decimal(n / 10);
    digit_is_decimal(n % 10);
}

proof fn digit_is_decimal(n: int)
    requires
        0 <= n < 10,
    ensures
        digit(n) as int == '0' as int + n,
{
}

/// A stamp is the date, the hour, the minute and the zone's name in this order, with a space, a
/// colon and a space between them; hour and minute have two decimal digits that read back as
/// what the clock shows.
pub proof fn the_stamp_shows_the_moment(time: (Seq<char>, u32, u32, Seq<char>))
    requires
        time.1 < 24,
        time.2 < 60,
    ensures
        exists|h: Seq<char>, m: Seq<char>|
            #![trigger h.len(), m.len()]
            {
                &&& h.len() == 2
                &&& m.len() == 2
                &&& '0' <= h[0] <= '9' && '0' <= h[1] <= '9'
                &&& '0' <= m[0] <= '9' && '0' <= m[1] <= '9'
                &&& 10 * (h[0] as int - '0' as int) + (h[1] as int - '0' as int) == time.1
                &&& 10 * (m[0] as int - '0' as int) + (m[1] as int - '0' as int) == time.2
                &&& stamp(time) == time.0 + " "@ + h + ":"@ + m + " "@ + time.3
            },
{
    let h = two_digits(time.1 as int);
    let m = two_digits(time.2 as int);
    two_digits_read_back(time.1 as int);
    two_digits_read_back(time.2 as int);
    reveal_strlit(" ");
    reveal_strlit(":");
    assert(" "@ =~= seq![' ']);
    assert(":"@ =~= seq![':']);
    assert(h.len() == 2 && m.len() == 2);
    assert(stamp(time) == time.0 + " "@ + h + ":"@ + m + " "@ + time.3);
}

/// Each flag adds its own part and nothing else, the parts always in the order user, device,
/// stamp: the device stands behind an at sign, an unknown device is called so, and a stamp that
/// does not come first has a space before it.
pub proof fn each_flag_adds_its_own_part(
    text: Seq<char>,
    username: Seq<char>,
    device: Option<Seq<char>>,
    time: (Seq<char>, u32, u32, Seq<char>),
    shown: Seq<char>,
)
    requires
        device matches Some(slug) ==> shown == slug,
        device is None ==> shown == "unknown"@,
    ensures
        prefixed(text, username, device, time, false, false, false) == text,
        prefixed(text, username, device, time, true, false, false) == "["@ + username + "] "@
            + text,
        prefixed(text, username, device, time, false, false, true) == "[@"@ + shown + "] "@ + text,
        prefixed(text, username, device, time, true, false, true) == "["@ + username + "@"@ + shown
            + "] "@ + text,
        prefixed(text, username, device, time, false, true, false) == "["@ + stamp(time) + "] "@
            + text,
        prefixed(text, username, device, time, true, true, false) == "["@ + username + " "@
            + stamp(time) + "] "@ + text,
        prefixed(text, username, device, time, false, true, true) == "[@"@ + shown + " "@
            + stamp(time) + "] "@ + text,
        prefixed(text, username, device, time, true, true, true) == "["@ + username + "@"@ + shown
            + " "@ + stamp(time) + "] "@ + text,
{
    reveal_strlit("[");
    reveal_strlit("[@");
    reveal_strlit("@");
    reveal_strlit(" ");
    reveal_strlit("] ");
}

/// What a moment says is its date, its hour, its minute and its zone's name.
pub proof fn a_moment_says_what_the_clock_shows(time: LocalTime)
    ensures
        time@.0 == time.date@,
        time@.1 == time.hour,
        time@.2 == time.minute,
        time@.3 == time.zone@,
{
}

} // verus!
