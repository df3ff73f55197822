use vstd::prelude::*;

use crate::timestamp::Timestamp;

verus! {

/// A stored operator profile: the station identity a log entry is recorded
/// under and exported with.
pub struct OperatorConfig {
    pub id: u64,
    pub name: String,
    pub call: String,
    pub grid: String,
    pub cqz: String,
    pub ituz: String,
    pub dxcc: String,
    pub cont: String,
}

/// Mathematical model of an `OperatorConfig`.
pub ghost struct OperatorConfigV {
    pub id: u64,
    pub name: Seq<char>,
    pub call: Seq<char>,
    pub grid: Seq<char>,
    pub cqz: Seq<char>,
    pub ituz: Seq<char>,
    pub dxcc: Seq<char>,
    pub cont: Seq<char>,
}

impl View for OperatorConfig {
    type V = OperatorConfigV;

    open spec fn view(&self) -> OperatorConfigV {
        OperatorConfigV {
            id: self.id,
            name: self.name@,
            call: self.call@,
            grid: self.grid@,
            cqz: self.cqz@,
            ituz: self.ituz@,
            dxcc: self.dxcc@,
            cont: self.cont@,
        }
    }
}

impl OperatorConfig {
    /// An owned copy with the same contents.
    pub fn duplicate(&self) -> (r: OperatorConfig)
        ensures
            r == *self,
    {
        OperatorConfig {
            id: self.id,
            name: self.name.clone(),
            call: self.call.clone(),
            grid: self.grid.clone(),
            cqz: self.cqz.clone(),
            ituz: self.ituz.clone(),
            dxcc: self.dxcc.clone(),
            cont: self.cont.clone(),
        }
    }
}

/// A stored log entry: one contact, bound to the profile it was logged under.
pub struct LogEntry {
    pub id: u64,
    pub timestamp: Timestamp,
    pub call: String,
    pub rsttx: String,
    pub rstrx: String,
    pub band: String,
    pub frequency: String,
    pub mode: String,
    pub power: String,
    pub comments: String,
    pub profile_id: u64,
}

/// Mathematical model of a `LogEntry`.
pub ghost struct LogEntryV {
    pub id: u64,
    pub timestamp: Timestamp,
    pub call: Seq<char>,
    pub rsttx: Seq<char>,
    pub rstrx: Seq<char>,
    pub band: Seq<char>,
    pub frequency: Seq<char>,
    pub mode: Seq<char>,
    pub power: Seq<char>,
    pub comments: Seq<char>,
    pub profile_id: u64,
}

impl View for LogEntry {
    type V = LogEntryV;

    open spec fn view(&self) -> LogEntryV {
        LogEntryV {
            id: self.id,
            timestamp: self.timestamp,
            call: self.call@,
            rsttx: self.rsttx@,
            rstrx: self.rstrx@,
            band: self.band@,
            frequency: self.frequency@,
            mode: self.mode@,
            power: self.power@,
            comments: self.comments@,
            profile_id: self.profile_id,
        }
    }
}

impl LogEntry {
    /// An owned copy with the same contents.
    pub fn duplicate(&self) -> (r: LogEntry)
        ensures
            r == *self,
    {
        LogEntry {
            id: self.id,
            timestamp: self.timestamp,
            call: self.call.clone(),
            rsttx: self.rsttx.clone(),
            rstrx: self.rstrx.clone(),
            band: self.band.clone(),
            frequency: self.frequency.clone(),
            mode: self.mode.clone(),
            power: self.power.clone(),
            comments: self.comments.clone(),
            profile_id: self.profile_id,
        }
    }
}

/// One row of the logbook display: a log entry without its storage bookkeeping.
pub struct Logbook {
    pub timestamp: Timestamp,
    pub call: String,
    pub rsttx: String,
    pub rstrx: String,
    pub band: String,
    pub frequency: String,
    pub mode: String,
    pub comments: String,
}

/// Mathematical model of a `Logbook` row.
pub ghost struct LogbookV {
    pub timestamp: Timestamp,
    pub call: Seq<char>,
    pub rsttx: Seq<char>,
    pub rstrx: Seq<char>,
    pub band: Seq<char>,
    pub frequency: Seq<char>,
    pub mode: Seq<char>,
    pub comments: Seq<char>,
}

impl View for Logbook {
    type V = LogbookV;

    open spec fn view(&self) -> LogbookV {
        LogbookV {
            timestamp: self.timestamp,
            call: self.call@,
            rsttx: self.rsttx@,
            rstrx: self.rstrx@,
            band: self.band@,
            frequency: self.frequency@,
            mode: self.mode@,
            comments: self.comments@,
        }
    }
}

/// A log entry joined with its operator profile, as handed to the exporter.
pub struct LogbookExt {
    pub timestamp: Timestamp,
    pub call: String,
    pub rsttx: String,
    pub rstrx: String,
    pub band: String,
    pub frequency: String,
    pub mode: String,
    pub power: String,
    pub comments: String,
    pub operator: OperatorConfig,
}

/// Mathematical model of a `LogbookExt`.
pub ghost struct LogbookExtV {
    pub timestamp: Timestamp,
    pub call: Seq<char>,
    pub rsttx: Seq<char>,
    pub rstrx: Seq<char>,
    pub band: Seq<char>,
    pub frequency: Seq<char>,
    pub mode: Seq<char>,
    pub power: Seq<char>,
    pub comments: Seq<char>,
    pub operator: OperatorConfigV,
}

impl View for LogbookExt {
    type V = LogbookExtV;

    open spec fn view(&self) -> LogbookExtV {
        LogbookExtV {
            timestamp: self.timestamp,
            call: self.call@,
            rsttx: self.rsttx@,
            rstrx: self.rstrx@,
            band: self.band@,
            frequency: self.frequency@,
            mode: self.mode@,
            power: self.power@,
            comments: self.comments@,
            operator: self.operator@,
        }
    }
}

/// The logbook row a stored entry shows as: bookkeeping fields dropped.
pub open spec fn row_of(e: LogEntryV) -> LogbookV {
    LogbookV {
        timestamp: e.timestamp,
        call: e.call,
        rsttx: e.rsttx,
        rstrx: e.rstrx,
        band: e.band,
        frequency: e.frequency,
        mode: e.mode,
        comments: e.comments,
    }
}

/// A stored entry joined with its owning profile.
pub open spec fn enriched(e: LogEntryV, p: OperatorConfigV) -> LogbookExtV {
    LogbookExtV {
        timestamp: e.timestamp,
        call: e.call,
        rsttx: e.rsttx,
        rstrx: e.rstrx,
        band: e.band,
        frequency: e.frequency,
        mode: e.mode,
        power: e.power,
        comments: e.comments,
        operator: p,
    }
}

/// Lexicographic order on text, by code point.
pub open spec fn lex_cmp(a: Seq<char>, b: Seq<char>) -> core::cmp::Ordering
    decreases a.len(),
{
    if a.len() == 0 && b.len() == 0 {
        core::cmp::Ordering::Equal
    } else if a.len() == 0 {
        core::cmp::Ordering::Less
    } else if b.len() == 0 {
        core::cmp::Ordering::Greater
    } else if (a[0] as u32) < (b[0] as u32) {
        core::cmp::Ordering::Less
    } else if (a[0] as u32) > (b[0] as u32) {
        core::cmp::Ordering::Greater
    } else {
        lex_cmp(a.drop_first(), b.drop_first())
    }
}

/// Compare two pieces of text lexicographically, by code point.
pub fn str_cmp(a: &str, b: &str) -> (r: core::cmp::Ordering)
    ensures
        r == lex_cmp(a@, b@),
{
    let na = a.unicode_len();
    let nb = b.unicode_len();
    let n = if na < nb {
        na
    } else {
        nb
    };
    proof {
        assert(a@.skip(0) =~= a@);
        assert(b@.skip(0) =~= b@);
    }
    for i in 0..n
        invariant
            na == a@.len(),
            nb == b@.len(),
            n == if na < nb {
                na
            } else {
                nb
            },
            lex_cmp(a@, b@) == lex_cmp(a@.skip(i as int), b@.skip(i as int)),
    {
        let ca = a.get_char(i);
        let cb = b.get_char(i);
        proof {
            assert(a@.skip(i as int)[0] == a@[i as int]);
            assert(b@.skip(i as int)[0] == b@[i as int]);
            assert(a@.skip(i as int).drop_first() =~= a@.skip(i + 1));
            assert(b@.skip(i as int).drop_first() =~= b@.skip(i + 1));
        }
        if (ca as u32) < (cb as u32) {
            return core::cmp::Ordering::Less;
        }
        if (ca as u32) > (cb as u32) {
            return core::cmp::Ordering::Greater;
        }
    }
    proof {
        assert(a@.skip(n as int).len() == na - n);
        assert(b@.skip(n as int).len() == nb - n);
    }
    if na < nb {
        core::cmp::Ordering::Less
    } else if na > nb {
        core::cmp::Ordering::Greater
    } else {
        core::cmp::Ordering::Equal
    }
}

/// Columns shown in the logbook table view.
#[derive(Copy, Clone, PartialEq, Eq, Hash)]
pub enum LogbookColumn {
    Timestamp,
    Call,
    RSTTX,
    RSTRX,
    Band,
    Frequency,
    Mode,
    Comments,
}

/// The title of a logbook column, as shown in the table header.
pub open spec fn column_title(c: LogbookColumn) -> Seq<char> {
    match c {
        LogbookColumn::Timestamp => "Timestamp"@,
        LogbookColumn::Call => "Call"@,
        LogbookColumn::RSTTX => "RSTTX"@,
        LogbookColumn::RSTRX => "RSTRX"@,
        LogbookColumn::Band => "Band"@,
        LogbookColumn::Frequency => "Frequency"@,
        LogbookColumn::Mode => "Mode"@,
        LogbookColumn::Comments => "Comments"@,
    }
}

/// The text a logbook row shows in the given column.
pub open spec fn column_text(l: LogbookV, c: LogbookColumn) -> Seq<char> {
    match c {
        LogbookColumn::Timestamp => l.timestamp.text_spec(),
        LogbookColumn::Call => l.call,
        LogbookColumn::RSTTX => l.rsttx,
        LogbookColumn::RSTRX => l.rstrx,
        LogbookColumn::Band => l.band,
        LogbookColumn::Frequency => l.frequency,
        LogbookColumn::Mode => l.mode,
        LogbookColumn::Comments => l.comments,
    }
}

/// How two logbook rows compare in the given column: chronologically for
/// the timestamp, lexicographically for everything else.
pub open spec fn column_cmp(a: LogbookV, b: LogbookV, c: LogbookColumn) -> core::cmp::Ordering {
    match c {
        LogbookColumn::Timestamp => a.timestamp.cmp_spec(b.timestamp),
        LogbookColumn::Call => lex_cmp(a.call, b.call),
        LogbookColumn::RSTTX => lex_cmp(a.rsttx, b.rsttx),
        LogbookColumn::RSTRX => lex_cmp(a.rstrx, b.rstrx),
        LogbookColumn::Band => lex_cmp(a.band, b.band),
        LogbookColumn::Frequency => lex_cmp(a.frequency, b.frequency),
        LogbookColumn::Mode => lex_cmp(a.mode, b.mode),
        LogbookColumn::Comments => lex_cmp(a.comments, b.comments),
    }
}

impl Logbook {
    /// The text this row shows in the given column.
    pub fn to_column(&self, column: LogbookColumn) -> (r: String)
        requires
            self.timestamp.valid(),
        ensures
            r@ == column_text(self@, column),
    {
        match column {
            LogbookColumn::Timestamp => self.timestamp.to_text(),
            LogbookColumn::Call => self.call.clone(),
            LogbookColumn::RSTTX => self.rsttx.clone(),
            LogbookColumn::RSTRX => self.rstrx.clone(),
            LogbookColumn::Band => self.band.clone(),
            LogbookColumn::Frequency => self.frequency.clone(),
            LogbookColumn::Mode => self.mode.clone(),
            LogbookColumn::Comments => self.comments.clone(),
        }
    }

    /// How this row compares with another in the given column.
    pub fn cmp(&self, other: &Self, column: LogbookColumn) -> (r: core::cmp::Ordering)
        requires
            self.timestamp.valid(),
            other.timestamp.valid(),
        ensures
            r == column_cmp(self@, other@, column),
    {
        match column {
            LogbookColumn::Timestamp => self.timestamp.compare(&other.timestamp),
            LogbookColumn::Call => str_cmp(self.call.as_str(), other.call.as_str()),
            LogbookColumn::RSTTX => str_cmp(self.rsttx.as_str(), other.rsttx.as_str()),
            LogbookColumn::RSTRX => str_cmp(self.rstrx.as_str(), other.rstrx.as_str()),
            LogbookColumn::Band => str_cmp(self.band.as_str(), other.band.as_str()),
            LogbookColumn::Frequency => str_cmp(self.frequency.as_str(), other.frequency.as_str()),
            LogbookColumn::Mode => str_cmp(self.mode.as_str(), other.mode.as_str()),
            LogbookColumn::Comments => str_cmp(self.comments.as_str(), other.comments.as_str()),
        }
    }
}

impl LogbookColumn {
    pub fn as_str(&self) -> (r: &'static str)
        ensures
            r@ == column_title(*self),
    {
        match *self {
            LogbookColumn::Timestamp => "Timestamp",
            LogbookColumn::Call => "Call",
            LogbookColumn::RSTTX => "RSTTX",
            LogbookColumn::RSTRX => "RSTRX",
            LogbookColumn::Band => "Band",
            LogbookColumn::Frequency => "Frequency",
            LogbookColumn::Mode => "Mode",
            LogbookColumn::Comments => "Comments",
        }
    }
}

} // verus!
