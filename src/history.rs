use vstd::prelude::*;
use chrono::Datelike;
use crate::text::{decimal, padded, push_decimal, push_padded};

verus! {

/// A name for what `str::to_lowercase` returns.
pub uninterp spec fn lower_of(s: Seq<char>) -> Seq<char>;

/// Relies on `str::to_lowercase`: the result depends on the characters alone.
#[verifier::external_body]
fn lowercase(s: &str) -> (r: String)
    ensures
        r@ == lower_of(s@),
{
    s.to_lowercase()
}

/// A calendar day of the trade store.
#[derive(Copy, Clone, Debug, PartialEq, Eq, Structural)]
pub struct TradeDate {
    pub year: u32,
    pub month: u32,
    pub day: u32,
}

impl TradeDate {
    /// Year, month and day in the ranges that the store's names can carry.
    pub open spec fn in_range(&self) -> bool {
        &&& self.year <= 9999
        &&& 1 <= self.month <= 12
        &&& 1 <= self.day <= 31
    }

    /// The day as one number that orders days as the calendar does.
    pub open spec fn key(&self) -> int {
        self.year * 10000 + self.month * 100 + self.day
    }
}

/// A Gregorian leap year.
pub open spec fn is_leap(year: int) -> bool {
    (year % 4 == 0 && year % 100 != 0) || year % 400 == 0
}

/// The number of days of a month of the Gregorian calendar.
pub open spec fn days_in_month(year: int, month: int) -> int {
    if month == 2 {
        if is_leap(year) { 29 } else { 28 }
    } else if month == 4 || month == 6 || month == 9 || month == 11 {
        30
    } else {
        31
    }
}

/// Whether year, month and day name a day of the calendar.
pub open spec fn valid_ymd(year: int, month: int, day: int) -> bool {
    1 <= month <= 12 && 1 <= day <= days_in_month(year, month)
}

/// The calendar day after a valid day.
pub open spec fn day_after(year: int, month: int, day: int) -> (int, int, int) {
    if day < days_in_month(year, month) {
        (year, month, day + 1)
    } else if month < 12 {
        (year, month + 1, 1)
    } else {
        (year + 1, 1, 1)
    }
}

/// The day after a valid day, none for an invalid one.
pub open spec fn next_ymd(year: int, month: int, day: int) -> Option<(i32, u32, u32)> {
    if valid_ymd(year, month, day) {
        let n = day_after(year, month, day);
        Some((n.0 as i32, n.1 as u32, n.2 as u32))
    } else {
        None
    }
}

/// Relies on chrono's `NaiveDate::from_ymd_opt` (none for a day that the
/// proleptic Gregorian calendar lacks) and `NaiveDate::succ_opt` (the next
/// calendar day), read back through `Datelike`.
#[verifier::external_body]
fn chrono_next_day(year: u32, month: u32, day: u32) -> (r: Option<(i32, u32, u32)>)
    requires
        year <= 9999,
    ensures
        r == next_ymd(year as int, month as int, day as int),
{
    let d = chrono::NaiveDate::from_ymd_opt(year as i32, month, day)?;
    let n = d.succ_opt()?;
    Some((n.year(), n.month(), n.day()))
}

/// The day as one number that orders days as the calendar does.
pub fn date_key(d: TradeDate) -> (r: u64)
    ensures
        r == d.key(),
{
    d.year as u64 * 10000 + d.month as u64 * 100 + d.day as u64
}

/// The day after `d`, when `d` is a day of the calendar and the store's
/// four-digit years can name the next one.
pub fn next_day(d: TradeDate) -> (r: Option<TradeDate>)
    ensures
        r matches Some(n) ==> n.in_range() && n.key() > d.key(),
        valid_ymd(d.year as int, d.month as int, d.day as int) && day_after(d.year as int, d.month as int, d.day as int).0 <= 9999
            ==> (r matches Some(n) && n.year == day_after(d.year as int, d.month as int, d.day as int).0
                && n.month == day_after(d.year as int, d.month as int, d.day as int).1
                && n.day == day_after(d.year as int, d.month as int, d.day as int).2),
        !valid_ymd(d.year as int, d.month as int, d.day as int) ==> r is None,
{
    if d.year > 9999 {
        return None;
    }
    match chrono_next_day(d.year, d.month, d.day) {
        Some((y, m, dd)) => {
            if y < 0 || y > 9999 {
                None
            } else {
                Some(TradeDate { year: y as u32, month: m, day: dd })
            }
        },
        None => None,
    }
}

/// `yyyy_MM_dd`.
pub open spec fn date_text_of(d: TradeDate) -> Seq<char> {
    padded(d.year as nat, 4) + seq!['_'] + padded(d.month as nat, 2) + seq!['_'] + padded(d.day as nat, 2)
}

/// `a_b_c`.
pub open spec fn joined3(a: Seq<char>, b: Seq<char>, c: Seq<char>) -> Seq<char> {
    a + seq!['_'] + b + seq!['_'] + c
}

fn push_underscore(s: &mut String)
    ensures
        final(s)@ == old(s)@ + seq!['_'],
{
    proof {
        reveal_strlit("_");
    }
    s.append("_");
}

/// The date as the store writes it in table names: `yyyy_MM_dd`.
pub fn date_text(d: TradeDate) -> (r: String)
    ensures
        r@ == date_text_of(d),
{
    let mut s = String::new();
    push_padded(&mut s, d.year as u64, 4);
    push_underscore(&mut s);
    push_padded(&mut s, d.month as u64, 2);
    push_underscore(&mut s);
    push_padded(&mut s, d.day as u64, 2);
    assert(s@ =~= date_text_of(d));
    s
}

/// `a_b_c`, from parts already in the store's case.
pub fn join_database_name(a: &str, b: &str, c: &str) -> (r: String)
    ensures
        r@ == joined3(a@, b@, c@),
{
    let mut s = String::new();
    s.append(a);
    push_underscore(&mut s);
    s.append(b);
    push_underscore(&mut s);
    s.append(c);
    assert(s@ =~= joined3(a@, b@, c@));
    s
}

/// The database of an exchange, instrument kind and channel:
/// `{exchange}_{instrument}_{channel}`, lower case.
pub fn construct_database_name(exchange: &str, instrument: &str, channel: &str) -> (r: String)
    ensures
        r@ == joined3(lower_of(exchange@), lower_of(instrument@), lower_of(channel@)),
{
    let e = lowercase(exchange);
    let i = lowercase(instrument);
    let c = lowercase(channel);
    join_database_name(e.as_str(), i.as_str(), c.as_str())
}

/// `{database}_{yyyy_MM_dd}_{base}_{quote}`.
pub open spec fn table_name_of(database: Seq<char>, d: TradeDate, base: Seq<char>, quote: Seq<char>) -> Seq<char> {
    database + seq!['_'] + date_text_of(d) + seq!['_'] + base + seq!['_'] + quote
}

/// The per-symbol table of one day, from parts already in the store's case.
pub fn join_table_name(database: &str, d: TradeDate, base: &str, quote: &str) -> (r: String)
    ensures
        r@ == table_name_of(database@, d, base@, quote@),
{
    let mut s = String::new();
    s.append(database);
    push_underscore(&mut s);
    let dt = date_text(d);
    s.append(dt.as_str());
    push_underscore(&mut s);
    s.append(base);
    push_underscore(&mut s);
    s.append(quote);
    assert(s@ =~= table_name_of(database@, d, base@, quote@));
    s
}

/// The table of one symbol and day:
/// `{exchange}_{instrument}_{channel}_{yyyy_MM_dd}_{base}_{quote}`, lower case.
pub fn construct_table_name(exchange: &str, instrument: &str, channel: &str, d: TradeDate, base: &str, quote: &str) -> (r: String)
    ensures
        r@ == table_name_of(joined3(lower_of(exchange@), lower_of(instrument@), lower_of(channel@)), d,
            lower_of(base@), lower_of(quote@)),
{
    let db = construct_database_name(exchange, instrument, channel);
    let b = lowercase(base);
    let q = lowercase(quote);
    join_table_name(db.as_str(), d, b.as_str(), q.as_str())
}

/// `{database}_union_{yyyy_MM_dd}`.
pub open spec fn union_name_of(database: Seq<char>, d: TradeDate) -> Seq<char> {
    database + "_union_"@ + date_text_of(d)
}

/// The view that merges every symbol of one day:
/// `{exchange}_{instrument}_{channel}_union_{yyyy_MM_dd}`, lower case.
pub fn construct_union_table_name(exchange: &str, instrument: &str, channel: &str, d: TradeDate) -> (r: String)
    ensures
        r@ == union_name_of(joined3(lower_of(exchange@), lower_of(instrument@), lower_of(channel@)), d),
{
    let mut s = construct_database_name(exchange, instrument, channel);
    s.append("_union_");
    let dt = date_text(d);
    s.append(dt.as_str());
    s
}

/// `SELECT symbol, side, price, timestamp, amount FROM {database}.{table} ORDER BY timestamp ASC|DESC`,
/// then `LIMIT {limit} OFFSET {offset}` when a page is asked for.
pub open spec fn trades_query_of(database: Seq<char>, table: Seq<char>, ascending: bool, page: Option<(u64, u64)>) -> Seq<char> {
    "SELECT symbol, side, price, timestamp, amount FROM "@ + database + "."@ + table
        + " ORDER BY timestamp "@ + (if ascending { "ASC"@ } else { "DESC"@ })
        + match page {
            Some((limit, offset)) => " LIMIT "@ + decimal(limit as nat) + " OFFSET "@ + decimal(offset as nat),
            None => Seq::empty(),
        }
}

/// The query that reads the trades of one table in time order.
pub fn trades_query(database: &str, table: &str, ascending: bool, page: Option<(u64, u64)>) -> (r: String)
    ensures
        r@ == trades_query_of(database@, table@, ascending, page),
{
    let mut s = String::from_str("SELECT symbol, side, price, timestamp, amount FROM ");
    s.append(database);
    s.append(".");
    s.append(table);
    s.append(" ORDER BY timestamp ");
    if ascending {
        s.append("ASC");
    } else {
        s.append("DESC");
    }
    let ghost head = s@;
    match page {
        Some((limit, offset)) => {
            s.append(" LIMIT ");
            push_decimal(&mut s, limit);
            s.append(" OFFSET ");
            push_decimal(&mut s, offset);
            assert(s@ =~= trades_query_of(database@, table@, ascending, page));
        },
        None => {
            assert(s@ =~= trades_query_of(database@, table@, ascending, page));
        },
    }
    s
}

/// `SHOW TABLES FROM {database}`.
pub fn show_tables_query(database: &str) -> (r: String)
    ensures
        r@ == "SHOW TABLES FROM "@ + database@,
{
    let mut s = String::from_str("SHOW TABLES FROM ");
    s.append(database);
    s
}

/// `DROP TABLE {database}.{table}`.
pub fn drop_table_query(database: &str, table: &str) -> (r: String)
    ensures
        r@ == "DROP TABLE "@ + database@ + "."@ + table@,
{
    let mut s = String::from_str("DROP TABLE ");
    s.append(database);
    s.append(".");
    s.append(table);
    s
}

/// Whether `needle` occurs in `hay` at position `i`.
pub open spec fn occurs_at(hay: Seq<char>, needle: Seq<char>, i: int) -> bool {
    0 <= i && i + needle.len() <= hay.len() && hay.subrange(i, i + needle.len()) == needle
}

/// Whether `needle` occurs somewhere in `hay`.
pub open spec fn contains_text(hay: Seq<char>, needle: Seq<char>) -> bool {
    exists|i: int| #[trigger] occurs_at(hay, needle, i)
}

/// Whether `needle` occurs in `hay`.
pub fn text_contains(hay: &str, needle: &str) -> (r: bool)
    ensures
        r == contains_text(hay@, needle@),
{
    let n = hay.unicode_len();
    let m = needle.unicode_len();
    if m > n {
        assert forall|i: int| !#[trigger] occurs_at(hay@, needle@, i) by {}
        return false;
    }
    let mut i: usize = 0;
    while i <= n - m
        invariant
            n == hay@.len(),
            m == needle@.len(),
            m <= n,
            0 <= i <= n - m + 1,
            forall|k: int| 0 <= k < i ==> !#[trigger] occurs_at(hay@, needle@, k),
        decreases n - m + 1 - i,
    {
        let mut k: usize = 0;
        while k < m && hay.get_char(i + k) == needle.get_char(k)
            invariant
                n == hay@.len(),
                m == needle@.len(),
                i + m <= n,
                0 <= k <= m,
                forall|x: int| 0 <= x < k ==> hay@[i + x] == needle@[x],
            decreases m - k,
        {
            k += 1;
        }
        if k == m {
            assert(hay@.subrange(i as int, i + m) =~= needle@);
            assert(occurs_at(hay@, needle@, i as int));
            return true;
        }
        assert(hay@.subrange(i as int, i + m)[k as int] != needle@[k as int]);
        i += 1;
    }
    assert forall|j: int| !#[trigger] occurs_at(hay@, needle@, j) by {
        if 0 <= j < i {
        }
    }
    false
}

/// The names among `tables` that contain `substring`, in order.
pub fn tables_matching(tables: &Vec<String>, substring: &str) -> (r: Vec<String>)
    ensures
        r@.len() <= tables@.len(),
        forall|k: int| 0 <= k < r@.len() ==> contains_text((#[trigger] r@[k])@, substring@),
        forall|k: int| 0 <= k < tables@.len() && contains_text((#[trigger] tables@[k])@, substring@)
            ==> exists|x: int| 0 <= x < r@.len() && r@[x] == tables@[k],
{
    let mut out: Vec<String> = Vec::new();
    let mut k: usize = 0;
    while k < tables.len()
        invariant
            0 <= k <= tables@.len(),
            out@.len() <= k,
            forall|a: int| 0 <= a < out@.len() ==> contains_text((#[trigger] out@[a])@, substring@),
            forall|a: int| 0 <= a < k && contains_text((#[trigger] tables@[a])@, substring@)
                ==> exists|x: int| 0 <= x < out@.len() && out@[x] == tables@[a],
        decreases tables@.len() - k,
    {
        if text_contains(tables[k].as_str(), substring) {
            let ghost before = out@;
            out.push(tables[k].clone());
            proof {
                assert forall|a: int| 0 <= a < k + 1 && contains_text((#[trigger] tables@[a])@, substring@)
                    implies exists|x: int| 0 <= x < out@.len() && out@[x] == tables@[a] by {
                    if a < k {
                        let x = choose|x: int| 0 <= x < before.len() && before[x] == tables@[a];
                        assert(out@[x] == tables@[a]);
                    } else {
                        assert(out@[before.len() as int] == tables@[a]);
                    }
                }
            }
        }
        k += 1;
    }
    out
}

/// What the replay asks of the store next.
#[derive(Copy, Clone, Debug, PartialEq, Eq, Structural)]
pub enum ReplayStep {
    /// Read `limit` trades of `date`'s union view, skipping `offset`.
    Query { date: TradeDate, limit: u64, offset: u64 },
    /// Every date has been read.
    Done,
}

/// A batched replay of the dates `date..=last`: pages of `batch_size` trades
/// per date, dates in ascending order.
#[derive(Copy, Clone, Debug, PartialEq, Eq, Structural)]
pub struct ReplayCursor {
    pub date: TradeDate,
    pub last: TradeDate,
    pub page: u64,
    pub batch_size: u64,
    pub finished: bool,
}

impl ReplayCursor {
    /// A replay of `from..=to`; an empty range or a zero batch reads nothing.
    pub fn new(from: TradeDate, to: TradeDate, batch_size: u64) -> (r: ReplayCursor)
        ensures
            r.date == from && r.last == to && r.page == 0 && r.batch_size == batch_size,
            r.finished == (from.key() > to.key() || batch_size == 0),
    {
        let finished = batch_size == 0 || date_key(from) > date_key(to);
        ReplayCursor { date: from, last: to, page: 0, batch_size, finished }
    }

    /// The query for the current page: `LIMIT batch_size OFFSET page * batch_size`.
    pub fn current(&self) -> (r: ReplayStep)
        ensures
            self.finished ==> r == ReplayStep::Done,
            !self.finished && self.page * self.batch_size <= u64::MAX ==> r == (ReplayStep::Query {
                date: self.date,
                limit: self.batch_size,
                offset: (self.page * self.batch_size) as u64,
            }),
            !self.finished && self.page * self.batch_size > u64::MAX ==> r == ReplayStep::Done,
    {
        if self.finished {
            return ReplayStep::Done;
        }
        match self.page.checked_mul(self.batch_size) {
            Some(offset) => ReplayStep::Query { date: self.date, limit: self.batch_size, offset },
            None => ReplayStep::Done,
        }
    }

    /// Moves to the first page of the next date, or finishes after the last one.
    fn next_date(&mut self)
        ensures
            final(self).last == old(self).last,
            final(self).batch_size == old(self).batch_size,
            final(self).finished || (final(self).date.key() > old(self).date.key() && final(self).page == 0),
            old(self).finished ==> final(self).finished,
            old(self).date.key() >= old(self).last.key() ==> final(self).finished,
            !old(self).finished && old(self).date.key() < old(self).last.key()
                && valid_ymd(old(self).date.year as int, old(self).date.month as int, old(self).date.day as int)
                && day_after(old(self).date.year as int, old(self).date.month as int, old(self).date.day as int).0 <= 9999
                ==> !final(self).finished && final(self).page == 0
                    && final(self).date.year == day_after(old(self).date.year as int, old(self).date.month as int, old(self).date.day as int).0
                    && final(self).date.month == day_after(old(self).date.year as int, old(self).date.month as int, old(self).date.day as int).1
                    && final(self).date.day == day_after(old(self).date.year as int, old(self).date.month as int, old(self).date.day as int).2,
    {
        if self.finished {
            return;
        }
        if date_key(self.date) >= date_key(self.last) {
            self.finished = true;
            return;
        }
        match next_day(self.date) {
            Some(n) => {
                self.date = n;
                self.page = 0;
            },
            None => {
                self.finished = true;
            },
        }
    }

    /// Takes the count of trades that the current page returned: a full page
    /// asks for the next page of the same date, a short one moves to the next
    /// date (or finishes after the last).
    pub fn on_page(&mut self, rows: u64)
        ensures
            final(self).last == old(self).last,
            final(self).batch_size == old(self).batch_size,
            old(self).finished ==> final(self).finished,
            !old(self).finished && rows >= old(self).batch_size && old(self).page < u64::MAX ==>
                final(self).date == old(self).date && final(self).page == old(self).page + 1 && !final(self).finished,
            !old(self).finished && (rows < old(self).batch_size || old(self).page == u64::MAX) ==>
                final(self).finished || (final(self).date.key() > old(self).date.key() && final(self).page == 0),
            (rows < old(self).batch_size || old(self).page == u64::MAX) && old(self).date.key() >= old(self).last.key()
                ==> final(self).finished,
            !old(self).finished && (rows < old(self).batch_size || old(self).page == u64::MAX) && old(self).date.key() < old(self).last.key()
                && valid_ymd(old(self).date.year as int, old(self).date.month as int, old(self).date.day as int)
                && day_after(old(self).date.year as int, old(self).date.month as int, old(self).date.day as int).0 <= 9999
                ==> !final(self).finished && final(self).page == 0
                    && final(self).date.year == day_after(old(self).date.year as int, old(self).date.month as int, old(self).date.day as int).0
                    && final(self).date.month == day_after(old(self).date.year as int, old(self).date.month as int, old(self).date.day as int).1
                    && final(self).date.day == day_after(old(self).date.year as int, old(self).date.month as int, old(self).date.day as int).2,
    {
        if self.finished {
            return;
        }
        if rows >= self.batch_size && self.page < u64::MAX {
            self.page = self.page + 1;
        } else {
            self.next_date();
        }
    }

    /// A date whose view could not be read is skipped: the replay goes on with the next date.
    pub fn on_error(&mut self)
        ensures
            final(self).last == old(self).last,
            final(self).finished || (final(self).date.key() > old(self).date.key() && final(self).page == 0),
            old(self).finished ==> final(self).finished,
            !old(self).finished && old(self).date.key() < old(self).last.key()
                && valid_ymd(old(self).date.year as int, old(self).date.month as int, old(self).date.day as int)
                && day_after(old(self).date.year as int, old(self).date.month as int, old(self).date.day as int).0 <= 9999
                ==> !final(self).finished && final(self).page == 0
                    && final(self).date.year == day_after(old(self).date.year as int, old(self).date.month as int, old(self).date.day as int).0
                    && final(self).date.month == day_after(old(self).date.year as int, old(self).date.month as int, old(self).date.day as int).1
                    && final(self).date.day == day_after(old(self).date.year as int, old(self).date.month as int, old(self).date.day as int).2,
    {
        self.next_date();
    }
}

} // verus!
