//! Snapshot timestamps: which snapshot a moment belongs to, how a finished
//! mosaic is named, and where each tile of a snapshot is published.

use crate::text::{
    chars_of, decimal, field, file_name, file_name_of, lemma_decimal,
    lemma_field_reads_back, lemma_file_name_of, lemma_padded2, lemma_slashless_joined, padded2,
    push_decimal, push_padded2, read_field, slashless, starts_with,
};
use chrono::{Datelike, Timelike};
use vstd::prelude::*;
use vstd::std_specs::convert::FromSpecImpl;
use vstd::string::*;

verus! {

/// Where the publisher keeps the tiles of the 20 x 20 grid at 550 pixels.
pub const URLBASE: &'static str = "https://himawari8.nict.go.jp/img/D531106/20d/550/";

/// Minutes between two snapshots of the publisher. A snapshot comes out
/// every ten minutes, so the minute of a snapshot is one of 0, 10, 20, 30,
/// 40 and 50, and a moment in between belongs to the snapshot before it.
pub const STEP_MINUTES: u32 = 10;

/// The timestamp of one published snapshot.
#[derive(Debug, PartialEq, Eq, Clone, Copy, Structural)]
pub struct HimawariDatetime {
    pub year: u32,
    pub month: u32,
    pub day: u32,
    pub h: u32,
    pub m: u32,
}

/// Why a snapshot could not be named or located.
#[derive(Debug, PartialEq, Eq, Clone, Copy, Structural)]
pub enum SnapshotError {
    /// The text is not the file name of a finished mosaic.
    UnrecognizedArtifactName,
    /// The address of a tile is not a valid URL.
    MalformedLocator,
}

/// Why a requested moment was replaced by the first snapshot of the dataset.
#[derive(Debug, PartialEq, Eq, Clone, Copy, Structural)]
pub enum ValidationWarning {
    /// A field lies outside the calendar or the clock.
    OutOfRange,
    /// The moment lies before the first snapshot of the dataset.
    BeforeDataset,
    /// The moment lies after the present.
    InFuture,
}

/// A moment of the UTC calendar, to the minute.
#[derive(Debug, PartialEq, Eq, Clone, Copy, Structural)]
pub struct UtcInstant {
    pub year: i64,
    pub month: u32,
    pub day: u32,
    pub hour: u32,
    pub minute: u32,
}

impl UtcInstant {
    /// The five fields as a timestamp.
    pub open spec fn stamp(self) -> Stamp {
        (self.year as int, self.month as int, self.day as int, self.hour as int, self.minute as int)
    }

    /// Whether month, day, hour and minute lie within calendar and clock.
    pub open spec fn is_civil(self) -> bool {
        &&& 1 <= self.month <= 12
        &&& 1 <= self.day <= 31
        &&& self.hour <= 23
        &&& self.minute <= 59
    }

    /// Whether `self` is strictly earlier than `other`.
    pub fn is_earlier(&self, other: &UtcInstant) -> (r: bool)
        ensures
            r == earlier(self.stamp(), other.stamp()),
    {
        if self.year != other.year {
            self.year < other.year
        } else if self.month != other.month {
            self.month < other.month
        } else if self.day != other.day {
            self.day < other.day
        } else if self.hour != other.hour {
            self.hour < other.hour
        } else {
            self.minute < other.minute
        }
    }
}

/// Why the request for the snapshot of `requested` is turned down at the
/// moment `now`, if it is.
pub open spec fn rejection(requested: UtcInstant, now: UtcInstant) -> Option<ValidationWarning> {
    if !requested.is_civil() || requested.year < 0 || requested.year > u32::MAX {
        Some(ValidationWarning::OutOfRange)
    } else if earlier(requested.stamp(), HimawariDatetime::first().stamp()) {
        Some(ValidationWarning::BeforeDataset)
    } else if earlier(now.stamp(), requested.stamp()) {
        Some(ValidationWarning::InFuture)
    } else {
        None
    }
}

/// The snapshot that serves a request for the moment `requested` at the
/// moment `now`: the request with its minute rounded down to the ten-minute
/// grid, or the first snapshot of the dataset where the request is turned
/// down.
pub open spec fn snapshot_for(requested: UtcInstant, now: UtcInstant) -> HimawariDatetime {
    if rejection(requested, now) is Some {
        HimawariDatetime::first()
    } else {
        HimawariDatetime {
            year: requested.year as u32,
            month: requested.month,
            day: requested.day,
            h: requested.hour,
            m: (requested.minute - requested.minute % 10) as u32,
        }
    }
}

/// `url::Url`, a parsed absolute URL. Nothing is known of what is inside.
#[verifier::external_type_specification]
#[verifier::external_body]
pub struct ExUrl(url::Url);

/// `url::ParseError`, the reason why a text is no URL. Nothing is known of
/// what is inside.
#[verifier::external_type_specification]
#[verifier::external_body]
pub struct ExUrlParseError(url::ParseError);

/// What `url::Url::parse` makes of a text: the URL, or why it is none.
pub uninterp spec fn url_parsed(text: Seq<char>) -> Result<url::Url, url::ParseError>;

/// Parses `text` as an absolute URL with `url::Url::parse`. The contract
/// gives the outcome its name and claims nothing else of it.
#[verifier::external_body]
fn parse_url(text: &str) -> (r: Result<url::Url, url::ParseError>)
    ensures
        r == url_parsed(text@),
{
    url::Url::parse(text)
}

/// `Url::clone`, which the `url` crate derives: the copy equals the URL that
/// it was made of.
pub assume_specification[ <url::Url as Clone>::clone ](u: &url::Url) -> (r: url::Url)
    ensures
        r == *u,
;

/// The locator that a parsed address stands for: the URL itself, or
/// `MalformedLocator` where the text was no URL.
pub open spec fn locator_of(parsed: Result<url::Url, url::ParseError>) -> Result<
    url::Url,
    SnapshotError,
> {
    match parsed {
        Ok(url) => Ok(url),
        Err(_) => Err(SnapshotError::MalformedLocator),
    }
}

/// Turns the outcome of parsing an address into a locator or the
/// library's own error.
pub fn locator_from(parsed: Result<url::Url, url::ParseError>) -> (r: Result<
    url::Url,
    SnapshotError,
>)
    ensures
        r == locator_of(parsed),
{
    match parsed {
        Ok(url) => Ok(url),
        Err(_) => Err(SnapshotError::MalformedLocator),
    }
}

/// Reads the UTC clock with chrono's `Utc::now` and hands out the fields
/// of the reading. The contract claims the ranges that chrono documents for
/// `month`, `day`, `hour` and `minute`, and that the year, an `i32` there,
/// fits in one. Nothing is claimed of which moment it is. `Utc::now` panics
/// where the system clock stands before 1970.
#[verifier::external_body]
fn utc_now() -> (t: UtcInstant)
    ensures
        t.is_civil(),
        i32::MIN <= t.year <= i32::MAX,
{
    let t = chrono::Utc::now();
    UtcInstant {
        year: i64::from(t.year()),
        month: t.month(),
        day: t.day(),
        hour: t.hour(),
        minute: t.minute(),
    }
}

/// The snapshot that the path of a finished mosaic stands for: the one
/// that its file name stands for, whatever directories come before.
pub open spec fn snapshot_of_path(path: Seq<char>) -> Option<HimawariDatetime> {
    parse_artifact_name(file_name_of(path))
}

/// The snapshot that a file name of a finished mosaic stands for: after
/// `fulldisc-` come year, month and day, each followed by a dash, a dash and
/// a space, then the hour followed by an underscore and the minute followed
/// by a dot. Each number is a run of digits that fits in 32 bits.
pub open spec fn parse_artifact_name(name: Seq<char>) -> Option<HimawariDatetime> {
    let prefix = "fulldisc-"@;
    if prefix.len() <= name.len() && name.take(prefix.len() as int) == prefix {
        match field(name.skip(prefix.len() as int), '-') {
            Some((year, after_year)) => match field(after_year, '-') {
                Some((month, after_month)) => match field(after_month, ' ') {
                    Some((day, after_day)) => match field(after_day, '_') {
                        Some((h, after_h)) => match field(after_h, '.') {
                            Some((m, _)) => Some(
                                HimawariDatetime {
                                    year: year as u32,
                                    month: month as u32,
                                    day: day as u32,
                                    h: h as u32,
                                    m: m as u32,
                                },
                            ),
                            None => None,
                        },
                        None => None,
                    },
                    None => None,
                },
                None => None,
            },
            None => None,
        }
    } else {
        None
    }
}

/// A calendar timestamp, as five numbers from the largest unit down.
pub type Stamp = (int, int, int, int, int);

/// Whether `a` is strictly earlier than `b`.
pub open spec fn earlier(a: Stamp, b: Stamp) -> bool {
    a.0 < b.0 || (a.0 == b.0 && (a.1 < b.1 || (a.1 == b.1 && (a.2 < b.2 || (a.2 == b.2 && (a.3
        < b.3 || (a.3 == b.3 && a.4 < b.4)))))))
}

impl HimawariDatetime {
    /// The five fields as a timestamp.
    pub open spec fn stamp(self) -> Stamp {
        (self.year as int, self.month as int, self.day as int, self.h as int, self.m as int)
    }

    /// The first snapshot of the dataset: 2015-07-07 01:50.
    pub open spec fn first() -> HimawariDatetime {
        HimawariDatetime { year: 2015, month: 7, day: 7, h: 1, m: 50 }
    }

    /// Whether the minute lies on the publisher's ten-minute grid.
    pub open spec fn on_grid(self) -> bool {
        self.m % 10 == 0 && self.m <= 50
    }

    /// Whether this is the timestamp of a snapshot that the dataset can hold.
    pub open spec fn is_valid(self) -> bool {
        &&& 1 <= self.month <= 12
        &&& 1 <= self.day <= 31
        &&& self.h <= 23
        &&& self.on_grid()
        &&& !earlier(self.stamp(), Self::first().stamp())
    }

    /// The file name of the finished mosaic of this snapshot.
    pub open spec fn artifact_name(self) -> Seq<char> {
        "fulldisc-"@ + decimal(self.year as nat) + "-"@ + padded2(self.month as nat) + "-"@
            + padded2(self.day as nat) + " "@ + padded2(self.h as nat) + "_"@ + padded2(
            self.m as nat,
        ) + ".png"@
    }

    /// The address of the tile in column `x` and row `y` of this snapshot.
    pub open spec fn locator_text(self, x: u32, y: u32) -> Seq<char> {
        URLBASE@ + decimal(self.year as nat) + "/"@ + padded2(self.month as nat) + "/"@ + padded2(
            self.day as nat,
        ) + "/"@ + padded2(self.h as nat) + padded2(self.m as nat) + "00_"@ + decimal(x as nat)
            + "_"@ + decimal(y as nat) + ".png"@
    }

    /// The earliest snapshot of the dataset.
    pub fn earliest() -> (s: Self)
        ensures
            s == Self::first(),
            s.is_valid(),
    {
        HimawariDatetime { year: 2015, month: 7, day: 7, h: 1, m: 50 }
    }

    /// Chooses the snapshot for a request: the moment `requested`, asked for
    /// at the moment `now`. The minute is rounded down to the ten-minute
    /// grid. A request outside calendar and clock, before the dataset or
    /// after `now` gets the first snapshot of the dataset, and the warning
    /// says why.
    pub fn closest_snapshot(requested: &UtcInstant, now: &UtcInstant) -> (r: (
        Self,
        Option<ValidationWarning>,
    ))
        ensures
            r.0 == snapshot_for(*requested, *now),
            r.1 == rejection(*requested, *now),
            r.0.is_valid(),
    {
        let first = UtcInstant { year: 2015, month: 7, day: 7, hour: 1, minute: 50 };
        if requested.month < 1 || requested.month > 12 || requested.day < 1 || requested.day > 31
            || requested.hour > 23 || requested.minute > 59 || requested.year < 0 || requested.year
            > 0xffff_ffff {
            (Self::earliest(), Some(ValidationWarning::OutOfRange))
        } else if requested.is_earlier(&first) {
            (Self::earliest(), Some(ValidationWarning::BeforeDataset))
        } else if now.is_earlier(requested) {
            (Self::earliest(), Some(ValidationWarning::InFuture))
        } else {
            let s = HimawariDatetime {
                year: requested.year as u32,
                month: requested.month,
                day: requested.day,
                h: requested.hour,
                m: requested.minute - requested.minute % STEP_MINUTES,
            };
            (s, None)
        }
    }

    /// The snapshot for the given date and time, asked for now: see
    /// `closest_snapshot`. The present is read from the UTC clock.
    pub fn new(year: u32, month: u32, day: u32, h: u32, m: u32) -> (s: Self)
        ensures
            s.is_valid(),
            exists|now: UtcInstant| #[trigger]
                now.is_civil() && s == snapshot_for(
                    UtcInstant { year: year as i64, month, day, hour: h, minute: m },
                    now,
                ),
    {
        let now = utc_now();
        let requested = UtcInstant { year: year as i64, month, day, hour: h, minute: m };
        Self::closest_snapshot(&requested, &now).0
    }

    /// The snapshot of the present: the moment that the UTC clock shows,
    /// with its minute rounded down to the ten-minute grid. See
    /// `closest_snapshot`, which does the same for a moment handed in.
    pub fn closest_to_now() -> (s: Self)
        ensures
            s.is_valid(),
            exists|t: UtcInstant| #[trigger] t.is_civil() && s == snapshot_for(t, t),
    {
        let t = utc_now();
        Self::closest_snapshot(&t, &t).0
    }

    /// Builds the file name of the finished mosaic: `fulldisc-`, the date
    /// with dashes, a space, hour and minute with an underscore, `.png`.
    pub fn pretty_filename(&self) -> (name: String)
        ensures
            name@ == self.artifact_name(),
    {
        let mut name = String::from_str("fulldisc-");
        push_decimal(&mut name, self.year);
        name.append("-");
        push_padded2(&mut name, self.month);
        name.append("-");
        push_padded2(&mut name, self.day);
        name.append(" ");
        push_padded2(&mut name, self.h);
        name.append("_");
        push_padded2(&mut name, self.m);
        name.append(".png");
        name
    }

    /// Reads the snapshot back out of the path of a finished mosaic: out of
    /// its file name, which is what follows the last `/`. Fails with
    /// `UnrecognizedArtifactName` where the file name does not follow the
    /// naming of finished mosaics.
    pub fn from_path(name: &str) -> (r: Result<Self, SnapshotError>)
        ensures
            match snapshot_of_path(name@) {
                Some(s) => r == Ok::<Self, SnapshotError>(s),
                None => r == Err::<Self, SnapshotError>(SnapshotError::UnrecognizedArtifactName),
            },
    {
        let path = chars_of(name);
        let chars = file_name(&path);
        let prefix = chars_of("fulldisc-");
        if !starts_with(&chars, &prefix) {
            return Err(SnapshotError::UnrecognizedArtifactName);
        }
        let (year, at) = match read_field(&chars, prefix.len(), '-') {
            Some(found) => found,
            None => { return Err(SnapshotError::UnrecognizedArtifactName); },
        };
        let (month, at) = match read_field(&chars, at, '-') {
            Some(found) => found,
            None => { return Err(SnapshotError::UnrecognizedArtifactName); },
        };
        let (day, at) = match read_field(&chars, at, ' ') {
            Some(found) => found,
            None => { return Err(SnapshotError::UnrecognizedArtifactName); },
        };
        let (h, at) = match read_field(&chars, at, '_') {
            Some(found) => found,
            None => { return Err(SnapshotError::UnrecognizedArtifactName); },
        };
        let (m, _) = match read_field(&chars, at, '.') {
            Some(found) => found,
            None => { return Err(SnapshotError::UnrecognizedArtifactName); },
        };
        Ok(HimawariDatetime { year, month, day, h, m })
    }

    /// Writes out the address of the tile in column `x` and row `y`.
    pub fn locator(&self, x: u32, y: u32) -> (text: String)
        ensures
            text@ == self.locator_text(x, y),
    {
        let mut text = String::from_str(URLBASE);
        push_decimal(&mut text, self.year);
        text.append("/");
        push_padded2(&mut text, self.month);
        text.append("/");
        push_padded2(&mut text, self.day);
        text.append("/");
        push_padded2(&mut text, self.h);
        push_padded2(&mut text, self.m);
        text.append("00_");
        push_decimal(&mut text, x);
        text.append("_");
        push_decimal(&mut text, y);
        text.append(".png");
        text
    }
}

impl HimawariDatetime {
    /// The locator of the tile in column `x` and row `y`: its address, parsed
    /// as a URL.
    pub open spec fn url_of(self, x: u32, y: u32) -> Result<url::Url, SnapshotError> {
        locator_of(url_parsed(self.locator_text(x, y)))
    }

    /// Builds the locator of the tile in column `x` and row `y`. Fails with
    /// `MalformedLocator` where the address is not a valid URL.
    pub fn get_url(&self, x: u32, y: u32) -> (r: Result<url::Url, SnapshotError>)
        ensures
            r == self.url_of(x, y),
    {
        let text = self.locator(x, y);
        locator_from(parse_url(text.as_str()))
    }
}

impl From<UtcInstant> for HimawariDatetime {
    /// The snapshot of the moment `t`, asked for at that same moment.
    fn from(t: UtcInstant) -> (s: Self) {
        HimawariDatetime::closest_snapshot(&t, &t).0
    }
}

impl FromSpecImpl<UtcInstant> for HimawariDatetime {
    open spec fn obeys_from_spec() -> bool {
        true
    }

    open spec fn from_spec(t: UtcInstant) -> Self {
        snapshot_for(t, t)
    }
}

/// The snapshot chosen for a request is never later than the moment asked
/// for, and its minute lies on the ten-minute grid. This holds of every
/// request that is not earlier than the first snapshot of the dataset; an
/// earlier one gets that first snapshot, which is later than the request.
pub proof fn lemma_closest_snapshot_not_later(requested: UtcInstant, now: UtcInstant)
    requires
        !earlier(requested.stamp(), HimawariDatetime::first().stamp()),
    ensures
        !earlier(requested.stamp(), snapshot_for(requested, now).stamp()),
        snapshot_for(requested, now).on_grid(),
{
}

/// The snapshot chosen for a request is never later than the moment at
/// which it is asked for, unless the clock itself stands before the first
/// snapshot of the dataset.
pub proof fn lemma_closest_snapshot_not_after_now(requested: UtcInstant, now: UtcInstant)
    requires
        !earlier(now.stamp(), HimawariDatetime::first().stamp()),
    ensures
        !earlier(now.stamp(), snapshot_for(requested, now).stamp()),
{
}

/// How the file name of a finished mosaic falls into its five fields, each
/// with the character that ends it.
proof fn lemma_artifact_name_shape(s: HimawariDatetime)
    ensures
        s.artifact_name() == "fulldisc-"@ + (decimal(s.year as nat) + seq!['-'] + (padded2(
            s.month as nat,
        ) + seq!['-'] + (padded2(s.day as nat) + seq![' '] + (padded2(s.h as nat) + seq!['_'] + (
        padded2(s.m as nat) + seq!['.'] + seq!['p', 'n', 'g']))))),
{
    reveal_strlit("-");
    reveal_strlit(" ");
    reveal_strlit("_");
    reveal_strlit(".png");
    assert("-"@ =~= seq!['-']);
    assert(" "@ =~= seq![' ']);
    assert("_"@ =~= seq!['_']);
    assert(".png"@ =~= seq!['.'] + seq!['p', 'n', 'g']);
    lemma_regroup(
        "fulldisc-"@,
        decimal(s.year as nat),
        padded2(s.month as nat),
        padded2(s.day as nat),
        padded2(s.h as nat),
        padded2(s.m as nat),
        seq!['-'],
        seq![' '],
        seq!['_'],
        seq!['.'],
        seq!['p', 'n', 'g'],
    );
}

/// Joining eleven pieces from the left gives what joining them from the
/// right gives.
proof fn lemma_regroup(
    p: Seq<char>,
    a: Seq<char>,
    b: Seq<char>,
    c: Seq<char>,
    d: Seq<char>,
    e: Seq<char>,
    dash: Seq<char>,
    space: Seq<char>,
    under: Seq<char>,
    dot: Seq<char>,
    ext: Seq<char>,
)
    ensures
        p + a + dash + b + dash + c + space + d + under + e + (dot + ext) == p + (a + dash + (b
            + dash + (c + space + (d + under + (e + dot + ext))))),
{
    let t4 = e + dot + ext;
    let t3 = d + under + t4;
    let t2 = c + space + t3;
    let t1 = b + dash + t2;
    assert(e + (dot + ext) =~= t4);
    assert(p + a + dash + b + dash + c + space + d + under + e + (dot + ext) =~= p + a + dash + b
        + dash + c + space + d + under + t4);
    assert(p + a + dash + b + dash + c + space + d + under + t4 =~= p + a + dash + b + dash + c
        + space + t3);
    assert(p + a + dash + b + dash + c + space + t3 =~= p + a + dash + b + dash + t2);
    assert(p + a + dash + b + dash + t2 =~= p + a + dash + t1);
    assert(p + a + dash + t1 =~= p + (a + dash + t1));
}

/// The name of a finished mosaic holds no `/`, so it is its own file name.
pub proof fn lemma_artifact_name_is_file_name(s: HimawariDatetime)
    ensures
        file_name_of(s.artifact_name()) == s.artifact_name(),
{
    lemma_slashless_name(s);
    let name = s.artifact_name();
    assert(name.skip(0) =~= name);
    lemma_file_name_of(name, 0);
}

/// The name of a finished mosaic holds no `/`.
proof fn lemma_slashless_name(s: HimawariDatetime)
    ensures
        slashless(s.artifact_name()),
{
    reveal_strlit("fulldisc-");
    lemma_artifact_name_shape(s);
    lemma_decimal(s.year as nat);
    lemma_padded2(s.month as nat);
    lemma_padded2(s.day as nat);
    lemma_padded2(s.h as nat);
    lemma_padded2(s.m as nat);
    let year = decimal(s.year as nat);
    let month = padded2(s.month as nat);
    let day = padded2(s.day as nat);
    let h = padded2(s.h as nat);
    let m = padded2(s.m as nat);
    assert(slashless(year) && slashless(month) && slashless(day) && slashless(h) && slashless(m));
    let after_m = seq!['p', 'n', 'g'];
    lemma_slashless_joined(m, seq!['.']);
    lemma_slashless_joined(m + seq!['.'], after_m);
    let after_h = m + seq!['.'] + after_m;
    lemma_slashless_joined(h, seq!['_']);
    lemma_slashless_joined(h + seq!['_'], after_h);
    let after_day = h + seq!['_'] + after_h;
    lemma_slashless_joined(day, seq![' ']);
    lemma_slashless_joined(day + seq![' '], after_day);
    let after_month = day + seq![' '] + after_day;
    lemma_slashless_joined(month, seq!['-']);
    lemma_slashless_joined(month + seq!['-'], after_month);
    let after_year = month + seq!['-'] + after_month;
    lemma_slashless_joined(year, seq!['-']);
    lemma_slashless_joined(year + seq!['-'], after_year);
    lemma_slashless_joined("fulldisc-"@, year + seq!['-'] + after_year);
}

/// The name that `pretty_filename` gives a snapshot reads back as that
/// snapshot, whatever its five fields hold: as a bare name, and so as a
/// path, since the name holds no `/`.
pub proof fn lemma_artifact_name_round_trip(s: HimawariDatetime)
    ensures
        parse_artifact_name(s.artifact_name()) == Some(s),
        snapshot_of_path(s.artifact_name()) == Some(s),
{
    lemma_artifact_name_is_file_name(s);
    let prefix = "fulldisc-"@;
    let name = s.artifact_name();
    let year = decimal(s.year as nat);
    let month = padded2(s.month as nat);
    let day = padded2(s.day as nat);
    let h = padded2(s.h as nat);
    let m = padded2(s.m as nat);
    let after_m = seq!['p', 'n', 'g'];
    let after_h = m + seq!['.'] + after_m;
    let after_day = h + seq!['_'] + after_h;
    let after_month = day + seq![' '] + after_day;
    let after_year = month + seq!['-'] + after_month;
    lemma_artifact_name_shape(s);
    assert(name == prefix + (year + seq!['-'] + after_year));
    assert(name.take(prefix.len() as int) =~= prefix);
    assert(name.skip(prefix.len() as int) =~= year + seq!['-'] + after_year);
    assert(field(year + seq!['-'] + after_year, '-') == Some((s.year as nat, after_year))) by {
        lemma_decimal(s.year as nat);
        lemma_field_reads_back(year, s.year as nat, '-', after_year);
    }
    assert(field(after_year, '-') == Some((s.month as nat, after_month))) by {
        lemma_padded2(s.month as nat);
        lemma_field_reads_back(month, s.month as nat, '-', after_month);
    }
    assert(field(after_month, ' ') == Some((s.day as nat, after_day))) by {
        lemma_padded2(s.day as nat);
        lemma_field_reads_back(day, s.day as nat, ' ', after_day);
    }
    assert(field(after_day, '_') == Some((s.h as nat, after_h))) by {
        lemma_padded2(s.h as nat);
        lemma_field_reads_back(h, s.h as nat, '_', after_h);
    }
    assert(field(after_h, '.') == Some((s.m as nat, after_m))) by {
        lemma_padded2(s.m as nat);
        lemma_field_reads_back(m, s.m as nat, '.', after_m);
    }
}

/// Directories in front of the name of a finished mosaic change nothing:
/// the path reads back as the snapshot that the name was written for.
pub proof fn lemma_path_round_trip(directory: Seq<char>, s: HimawariDatetime)
    ensures
        snapshot_of_path(directory + seq!['/'] + s.artifact_name()) == Some(s),
{
    let name = s.artifact_name();
    let path = directory + seq!['/'] + name;
    let start = directory.len() as int + 1;
    lemma_artifact_name_is_file_name(s);
    lemma_artifact_name_round_trip(s);
    assert(path.skip(start) =~= name);
    assert(slashless(name)) by {
        lemma_slashless_name(s);
    }
    assert(path[start - 1] == '/');
    lemma_file_name_of(path, start);
}

} // verus!
