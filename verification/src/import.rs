//! Trade-history import: CSV row splitting, header lookup and row
//! validation, and the application of validated rows to the ledger.
//!
//! Reading the file is the caller's business; this module works on the
//! lines it is handed and hands back exact counts and structured errors.

use vstd::prelude::*;

use crate::app_state::AppState;
use crate::money::Money;
use crate::orders::Side;
use crate::text::{
    chars_to_string, lower_spec, string_views, to_lower, to_upper, trim_spec, trim_to_string,
    trim_vec, upper_spec,
};

verus! {

broadcast use crate::money::lemma_money_in_i64;

/// Why one CSV row was rejected.
#[derive(Clone, Copy, Debug, PartialEq, Eq, Structural)]
pub enum RowError {
    /// A required column is absent from the header.
    MissingColumn,
    /// The asset cell is empty.
    EmptyAsset,
    /// The side cell is neither BUY nor SELL.
    BadSide,
    /// The quantity cell is not a positive decimal amount.
    BadQuantity,
    /// The price cell is not a positive decimal amount.
    BadPrice,
    /// The asset type is neither STOCK nor CRYPTO.
    BadAssetType,
    /// A sell row asks for more than is held at that point of the import.
    InsufficientHoldings,
    /// Applying the row would take a position beyond the representable
    /// range.
    Overflow,
    /// The input has no header line at all.
    EmptyInput,
    /// Every data row failed: nothing was imported.
    NothingImported,
}

/// The fields of one CSV row, splitting at unquoted commas; a quoted cell
/// may contain commas, and a doubled quote inside a quoted cell stands for
/// one quote character.  Every field is trimmed.
pub open spec fn csv_scan(s: Seq<char>, cur: Seq<char>, inq: bool) -> Seq<Seq<char>>
    decreases s.len(),
{
    if s.len() == 0 {
        seq![trim_spec(cur)]
    } else if s[0] == '"' {
        if inq && s.len() >= 2 && s[1] == '"' {
            csv_scan(s.subrange(2, s.len() as int), cur.push('"'), true)
        } else {
            csv_scan(s.drop_first(), cur, !inq)
        }
    } else if s[0] == ',' && !inq {
        seq![trim_spec(cur)] + csv_scan(s.drop_first(), Seq::empty(), false)
    } else {
        csv_scan(s.drop_first(), cur.push(s[0]), inq)
    }
}

/// The trimmed fields of one CSV line.
pub open spec fn csv_fields(s: Seq<char>) -> Seq<Seq<char>> {
    csv_scan(s, Seq::empty(), false)
}

/// Splits one CSV line into its trimmed fields.
#[verifier::loop_isolation(false)]
pub fn parse_csv_row(line: &str) -> (r: Vec<String>)
    ensures
        string_views(r@) == csv_fields(line@),
{
    let n = line.unicode_len();
    let mut out: Vec<String> = Vec::new();
    let mut cur: Vec<char> = Vec::new();
    let mut inq = false;
    let mut i: usize = 0;
    proof {
        assert(line@.subrange(0, n as int) =~= line@);
    }
    while i < n
        invariant
            i <= n,
            csv_fields(line@) =~= string_views(out@) + csv_scan(
                line@.subrange(i as int, n as int),
                cur@,
                inq,
            ),
        decreases n - i,
    {
        let ghost rest = line@.subrange(i as int, n as int);
        let c = line.get_char(i);
        proof {
            assert(rest[0] == c);
            assert(rest.drop_first() =~= line@.subrange((i + 1) as int, n as int));
        }
        if c == '"' {
            let doubled = inq && i + 1 < n && line.get_char(i + 1) == '"';
            if doubled {
                proof {
                    assert(rest[1] == line@[(i + 1) as int]);
                    assert(rest.subrange(2, rest.len() as int) =~= line@.subrange(
                        (i + 2) as int,
                        n as int,
                    ));
                }
                cur.push('"');
                i = i + 2;
            } else {
                inq = !inq;
                i = i + 1;
            }
        } else if c == ',' && !inq {
            let ghost done = string_views(out@);
            let ghost cur0 = cur@;
            let trimmed = trim_vec(&cur);
            let field = chars_to_string(&trimmed);
            out.push(field);
            cur = Vec::new();
            proof {
                assert(string_views(out@) =~= done.push(trim_spec(cur0)));
                assert(cur@ =~= Seq::<char>::empty());
                assert(done + (seq![trim_spec(cur0)] + csv_scan(rest.drop_first(), Seq::empty(), false))
                    =~= (done + seq![trim_spec(cur0)]) + csv_scan(rest.drop_first(), Seq::empty(), false));
                assert(done + seq![trim_spec(cur0)] =~= done.push(trim_spec(cur0)));
            }
            i = i + 1;
        } else {
            cur.push(c);
            i = i + 1;
        }
    }
    proof {
        assert(line@.subrange(n as int, n as int) =~= Seq::<char>::empty());
    }
    let trimmed = trim_vec(&cur);
    let field = chars_to_string(&trimmed);
    let ghost done = string_views(out@);
    out.push(field);
    proof {
        assert(string_views(out@) =~= done.push(out@[out@.len() - 1]@));
        assert(string_views(out@) =~= csv_fields(line@));
    }
    out
}

/// The header entries: each non-empty header, trimmed and lower-cased,
/// paired with its column index.
pub open spec fn header_entries(hs: Seq<Seq<char>>, base: int) -> Seq<(Seq<char>, int)>
    decreases hs.len(),
{
    if hs.len() == 0 {
        Seq::empty()
    } else {
        let key = lower_spec(trim_spec(hs[0]));
        if key.len() == 0 {
            header_entries(hs.drop_first(), base + 1)
        } else {
            seq![(key, base)] + header_entries(hs.drop_first(), base + 1)
        }
    }
}

/// The images of a list of header entries.
pub open spec fn pair_views(v: Seq<(String, usize)>) -> Seq<(Seq<char>, int)> {
    v.map_values(|p: (String, usize)| (p.0@, p.1 as int))
}

/// Builds the header lookup table: column headings need not follow any
/// fixed order, so each non-empty heading (trimmed, lower-cased) is paired
/// with the index where it was found.
#[verifier::loop_isolation(false)]
pub fn build_header_map(headers: &Vec<String>) -> (r: Vec<(String, usize)>)
    ensures
        pair_views(r@) == header_entries(string_views(headers@), 0),
{
    let ghost hviews = string_views(headers@);
    let n = headers.len();
    let mut out: Vec<(String, usize)> = Vec::new();
    let mut i: usize = 0;
    proof {
        assert(hviews.subrange(0, n as int) =~= hviews);
    }
    while i < n
        invariant
            i <= n,
            n == headers.len(),
            header_entries(hviews, 0) =~= pair_views(out@) + header_entries(
                hviews.subrange(i as int, n as int),
                i as int,
            ),
        decreases n - i,
    {
        let ghost rest = hviews.subrange(i as int, n as int);
        proof {
            assert(rest[0] == hviews[i as int]);
            assert(rest.drop_first() =~= hviews.subrange((i + 1) as int, n as int));
        }
        let t = trim_to_string(headers[i].as_str());
        let key = to_lower(t.as_str());
        if !key.as_str().is_empty() {
            let ghost done = pair_views(out@);
            out.push((key, i));
            proof {
                assert(pair_views(out@) =~= done.push(
                    (out@[out@.len() - 1].0@, out@[out@.len() - 1].1 as int),
                ));
            }
        }
        i = i + 1;
    }
    proof {
        assert(hviews.subrange(n as int, n as int) =~= Seq::<Seq<char>>::empty());
        assert(header_entries(hviews.subrange(n as int, n as int), n as int) =~= Seq::<(
            Seq<char>,
            int,
        )>::empty());
        assert(pair_views(out@) =~= header_entries(hviews, 0));
    }
    out
}

/// The column index a key names, with a later duplicate heading winning
/// over an earlier one.
pub open spec fn lookup_header(m: Seq<(Seq<char>, int)>, key: Seq<char>) -> Option<int>
    decreases m.len(),
{
    if m.len() == 0 {
        None
    } else if m.last().0 == key {
        Some(m.last().1)
    } else {
        lookup_header(m.drop_last(), key)
    }
}

/// Finds a key in the header table, scanning later entries first.
#[verifier::loop_isolation(false)]
fn lookup_in_map(header_map: &Vec<(String, usize)>, key: &str) -> (r: Option<usize>)
    ensures
        match r {
            Some(idx) => lookup_header(pair_views(header_map@), key@) == Some(idx as int),
            None => lookup_header(pair_views(header_map@), key@) is None,
        },
{
    let ghost whole = pair_views(header_map@);
    let key_s = String::from_str(key);
    let n = header_map.len();
    let mut i: usize = n;
    proof {
        assert(whole.subrange(0, n as int) =~= whole);
    }
    while i > 0
        invariant
            i <= n,
            n == header_map.len(),
            lookup_header(whole.subrange(0, i as int), key@) == lookup_header(whole, key@),
        decreases i,
    {
        let ghost pre = whole.subrange(0, i as int);
        proof {
            assert(pre.last() == whole[i - 1]);
            assert(pre.drop_last() =~= whole.subrange(0, (i - 1) as int));
        }
        if header_map[i - 1].0.eq(&key_s) {
            proof {
                assert(pre.last().0 == key@);
            }
            return Some(header_map[i - 1].1);
        }
        i = i - 1;
    }
    proof {
        assert(whole.subrange(0, 0) =~= Seq::<(Seq<char>, int)>::empty());
    }
    None
}

/// The trimmed cell a key names: absent key, nothing; out-of-range index,
/// the empty text.
pub open spec fn field_of(cols: Seq<Seq<char>>, m: Seq<(Seq<char>, int)>, key: Seq<char>) -> Option<
    Seq<char>,
> {
    match lookup_header(m, key) {
        None => None,
        Some(idx) => Some(
            if 0 <= idx < cols.len() {
                trim_spec(cols[idx])
            } else {
                Seq::empty()
            },
        ),
    }
}

/// The trimmed cell for `key`, or nothing when the column is absent; a row
/// shorter than the header yields the empty text.
pub fn get_value(cols: &Vec<String>, header_map: &Vec<(String, usize)>, key: &str) -> (r: Option<
    String,
>)
    ensures
        match r {
            Some(v) => field_of(string_views(cols@), pair_views(header_map@), key@) == Some(v@),
            None => field_of(string_views(cols@), pair_views(header_map@), key@) is None,
        },
{
    match lookup_in_map(header_map, key) {
        None => None,
        Some(idx) => {
            if idx < cols.len() {
                Some(trim_to_string(cols[idx].as_str()))
            } else {
                let empty = String::new();
                proof {
                    assert(empty@ =~= Seq::<char>::empty());
                }
                Some(empty)
            }
        },
    }
}

/// The trimmed cell for `key` when the column exists, the row reaches it
/// and the cell is non-empty; nothing otherwise.
pub fn get_optional(cols: &Vec<String>, header_map: &Vec<(String, usize)>, key: &str) -> (r:
    Option<String>)
    ensures
        match r {
            Some(v) => (match lookup_header(pair_views(header_map@), key@) {
                Some(idx) => 0 <= idx < cols@.len() && v@ == trim_spec(string_views(cols@)[idx])
                    && v@.len() > 0,
                None => false,
            }),
            None => (match lookup_header(pair_views(header_map@), key@) {
                Some(idx) => !(0 <= idx < cols@.len()) || trim_spec(string_views(cols@)[idx]).len()
                    == 0,
                None => true,
            }),
        },
{
    match lookup_in_map(header_map, key) {
        None => None,
        Some(idx) => {
            if idx < cols.len() {
                let t = trim_to_string(cols[idx].as_str());
                if t.as_str().is_empty() {
                    None
                } else {
                    Some(t)
                }
            } else {
                None
            }
        },
    }
}

/// Records an error message, keeping only the first three.
pub fn push_error(errors: &mut Vec<String>, msg: String)
    ensures
        old(errors)@.len() < 3 ==> final(errors)@ == old(errors)@.push(msg),
        old(errors)@.len() >= 3 ==> final(errors)@ == old(errors)@,
{
    if errors.len() < 3 {
        errors.push(msg);
    }
}

/// The side a cell names: BUY or SELL, after trimming and upper-casing.
pub open spec fn side_of_text(s: Seq<char>) -> Option<Side> {
    let u = upper_spec(trim_spec(s));
    if u == "BUY"@ {
        Some(Side::Buy)
    } else if u == "SELL"@ {
        Some(Side::Sell)
    } else {
        None
    }
}

/// Parses a side cell.
pub fn parse_side(side: &str) -> (r: Result<Side, RowError>)
    ensures
        match r {
            Ok(sd) => side_of_text(side@) == Some(sd),
            Err(e) => e == RowError::BadSide && side_of_text(side@) is None,
        },
{
    let t = trim_to_string(side);
    let u = to_upper(t.as_str());
    if u.eq(&String::from_str("BUY")) {
        Ok(Side::Buy)
    } else if u.eq(&String::from_str("SELL")) {
        Ok(Side::Sell)
    } else {
        Err(RowError::BadSide)
    }
}

/// Mathematical image of one validated trade row.
pub ghost struct RowView {
    pub date: Seq<char>,
    pub asset: Seq<char>,
    pub asset_type: Seq<char>,
    pub side: Side,
    pub quantity: int,
    pub price: int,
    pub currency: Option<Seq<char>>,
}

/// One validated trade row, ready to apply to the ledger.
#[derive(Debug)]
pub struct CsvTradeRow {
    pub date: String,
    pub asset: String,
    pub asset_type: String,
    pub side: Side,
    pub quantity: Money,
    pub price: Money,
    pub currency: Option<String>,
}

impl View for CsvTradeRow {
    type V = RowView;

    open spec fn view(&self) -> RowView {
        RowView {
            date: self.date@,
            asset: self.asset@,
            asset_type: self.asset_type@,
            side: self.side,
            quantity: self.quantity@,
            price: self.price@,
            currency: match self.currency {
                Some(c) => Some(c@),
                None => None,
            },
        }
    }
}

/// The optional trimmed cell for `key`: present only when the column
/// exists, the row reaches it, and the cell is non-empty.
pub open spec fn optional_field(
    cols: Seq<Seq<char>>,
    m: Seq<(Seq<char>, int)>,
    key: Seq<char>,
) -> Option<Seq<char>> {
    match lookup_header(m, key) {
        None => None,
        Some(idx) => if 0 <= idx < cols.len() && trim_spec(cols[idx]).len() > 0 {
            Some(trim_spec(cols[idx]))
        } else {
            None
        },
    }
}

/// What a row of cells means against a header table: the validated trade,
/// or the first reason it is rejected.  Checks run in the order the
/// implementation makes them: required columns, a non-empty asset, the
/// side, the quantity, the price, their positivity, and the asset type
/// (STOCK or CRYPTO).  The asset and the asset type are upper-cased.
pub open spec fn row_of(cols: Seq<Seq<char>>, m: Seq<(Seq<char>, int)>) -> Result<
    RowView,
    RowError,
> {
    if field_of(cols, m, "date"@) is None || field_of(cols, m, "asset"@) is None || field_of(
        cols,
        m,
        "asset_type"@,
    ) is None || field_of(cols, m, "side"@) is None || field_of(cols, m, "quantity"@) is None
        || field_of(cols, m, "price"@) is None {
        Err(RowError::MissingColumn)
    } else {
        let date = field_of(cols, m, "date"@).unwrap();
        let asset = field_of(cols, m, "asset"@).unwrap();
        let aty = field_of(cols, m, "asset_type"@).unwrap();
        let sd = field_of(cols, m, "side"@).unwrap();
        let qty = field_of(cols, m, "quantity"@).unwrap();
        let prc = field_of(cols, m, "price"@).unwrap();
        if asset.len() == 0 {
            Err(RowError::EmptyAsset)
        } else if side_of_text(sd) is None {
            Err(RowError::BadSide)
        } else if crate::money::money_units_of(qty) is None {
            Err(RowError::BadQuantity)
        } else if crate::money::money_units_of(prc) is None {
            Err(RowError::BadPrice)
        } else if crate::money::money_units_of(qty).unwrap() <= 0 {
            Err(RowError::BadQuantity)
        } else if crate::money::money_units_of(prc).unwrap() <= 0 {
            Err(RowError::BadPrice)
        } else if upper_spec(aty) != "STOCK"@ && upper_spec(aty) != "CRYPTO"@ {
            Err(RowError::BadAssetType)
        } else {
            Ok(
                RowView {
                    date,
                    asset: upper_spec(asset),
                    asset_type: upper_spec(aty),
                    side: side_of_text(sd).unwrap(),
                    quantity: crate::money::money_units_of(qty).unwrap(),
                    price: crate::money::money_units_of(prc).unwrap(),
                    currency: optional_field(cols, m, "currency"@),
                },
            )
        }
    }
}

/// Validates one row of cells against the header table.
pub fn parse_trade_row(cols: &Vec<String>, header_map: &Vec<(String, usize)>) -> (r: Result<
    CsvTradeRow,
    RowError,
>)
    ensures
        match r {
            Ok(row) => row_of(string_views(cols@), pair_views(header_map@)) == Ok::<
                RowView,
                RowError,
            >(row@),
            Err(e) => row_of(string_views(cols@), pair_views(header_map@)) == Err::<
                RowView,
                RowError,
            >(e),
        },
{
    let date = match get_value(cols, header_map, "date") {
        Some(v) => v,
        None => {
            return Err(RowError::MissingColumn);
        },
    };
    let asset_raw = match get_value(cols, header_map, "asset") {
        Some(v) => v,
        None => {
            return Err(RowError::MissingColumn);
        },
    };
    let aty_raw = match get_value(cols, header_map, "asset_type") {
        Some(v) => v,
        None => {
            return Err(RowError::MissingColumn);
        },
    };
    let side_raw = match get_value(cols, header_map, "side") {
        Some(v) => v,
        None => {
            return Err(RowError::MissingColumn);
        },
    };
    let qty_raw = match get_value(cols, header_map, "quantity") {
        Some(v) => v,
        None => {
            return Err(RowError::MissingColumn);
        },
    };
    let price_raw = match get_value(cols, header_map, "price") {
        Some(v) => v,
        None => {
            return Err(RowError::MissingColumn);
        },
    };
    if asset_raw.as_str().is_empty() {
        return Err(RowError::EmptyAsset);
    }
    let side = match parse_side(side_raw.as_str()) {
        Ok(sd) => sd,
        Err(e) => {
            return Err(e);
        },
    };
    let quantity = match Money::parse(qty_raw.as_str()) {
        Ok(q) => q,
        Err(_) => {
            return Err(RowError::BadQuantity);
        },
    };
    let price = match Money::parse(price_raw.as_str()) {
        Ok(p) => p,
        Err(_) => {
            return Err(RowError::BadPrice);
        },
    };
    if !quantity.is_positive() {
        return Err(RowError::BadQuantity);
    }
    if !price.is_positive() {
        return Err(RowError::BadPrice);
    }
    let aty = to_upper(aty_raw.as_str());
    if !(aty.eq(&String::from_str("STOCK")) || aty.eq(&String::from_str("CRYPTO"))) {
        return Err(RowError::BadAssetType);
    }
    let asset = to_upper(asset_raw.as_str());
    let currency = get_optional(cols, header_map, "currency");
    Ok(CsvTradeRow { date, asset, asset_type: aty, side, quantity, price, currency })
}

/// Names the timestamp chrono reads out of an RFC 3339 text; the result
/// depends on the text alone.
pub uninterp spec fn rfc3339_timestamp_of(s: Seq<char>) -> Option<int>;

/// Relies on chrono's `DateTime::parse_from_rfc3339` and
/// `DateTime::timestamp`: the epoch seconds of an RFC 3339 text, a
/// function of the text alone.
#[verifier::external_body]
fn parse_rfc3339_timestamp(s: &str) -> (r: Option<i64>)
    ensures
        match r {
            Some(t) => rfc3339_timestamp_of(s@) == Some(t as int),
            None => rfc3339_timestamp_of(s@) is None,
        },
{
    chrono::DateTime::parse_from_rfc3339(s).ok().map(|dt| dt.timestamp())
}

/// Names the timestamp chrono reads out of a `YYYY-MM-DD` text (midnight
/// UTC of that day); the result depends on the text alone.
pub uninterp spec fn date_timestamp_of(s: Seq<char>) -> Option<int>;

/// Relies on chrono's `NaiveDate::parse_from_str` with the `%Y-%m-%d`
/// format, `NaiveDate::and_hms_opt` and `NaiveDateTime::and_utc`: the epoch
/// seconds of midnight UTC on the named day, a function of the text alone.
#[verifier::external_body]
fn parse_naive_date_timestamp(s: &str) -> (r: Option<i64>)
    ensures
        match r {
            Some(t) => date_timestamp_of(s@) == Some(t as int),
            None => date_timestamp_of(s@) is None,
        },
{
    chrono::NaiveDate::parse_from_str(s, "%Y-%m-%d").ok().and_then(|d| d.and_hms_opt(0, 0, 0)).map(
        |ndt| ndt.and_utc().timestamp(),
    )
}

/// The timestamp for an imported row's date cell: an RFC 3339 instant or a
/// plain `YYYY-MM-DD` day at midnight UTC; an empty or unreadable date
/// falls back to the current time (which nothing constrains).
pub fn parse_date_to_timestamp(date: &str) -> (r: i64)
    ensures
        ({
            let t = trim_spec(date@);
            &&& (t.len() > 0 && rfc3339_timestamp_of(t) is Some) ==> r as int
                == rfc3339_timestamp_of(t).unwrap()
            &&& (t.len() > 0 && rfc3339_timestamp_of(t) is None && date_timestamp_of(t) is Some)
                ==> r as int == date_timestamp_of(t).unwrap()
        }),
{
    let trimmed = trim_to_string(date);
    if trimmed.as_str().is_empty() {
        return crate::clock::now_timestamp();
    }
    match parse_rfc3339_timestamp(trimmed.as_str()) {
        Some(t) => t,
        None => {
            match parse_naive_date_timestamp(trimmed.as_str()) {
                Some(t) => t,
                None => crate::clock::now_timestamp(),
            }
        },
    }
}

/// What a run of data lines does to the positions, and which rows go in:
/// a blank line or a row that fails validation changes nothing; a valid
/// buy grows the position when the grown quantity stays representable; a
/// valid sell within the held quantity shrinks it; every applied row is
/// collected in order.  Cash is never touched by an import.
pub open spec fn import_fold(
    hs: Seq<crate::holdings::HoldingView>,
    lines: Seq<Seq<char>>,
    m: Seq<(Seq<char>, int)>,
) -> (Seq<crate::holdings::HoldingView>, Seq<RowView>)
    decreases lines.len(),
{
    if lines.len() == 0 {
        (hs, Seq::empty())
    } else {
        let rest = lines.drop_first();
        if trim_spec(lines[0]).len() == 0 {
            import_fold(hs, rest, m)
        } else {
            match row_of(csv_fields(lines[0]), m) {
                Err(_) => import_fold(hs, rest, m),
                Ok(row) => if row.side == Side::Buy {
                    if crate::holdings::qty_of(hs, row.asset) + row.quantity <= i64::MAX {
                        let next = import_fold(
                            crate::holdings::buy_holdings(hs, row.asset, row.quantity, row.price),
                            rest,
                            m,
                        );
                        (next.0, seq![row] + next.1)
                    } else {
                        import_fold(hs, rest, m)
                    }
                } else {
                    if row.quantity <= crate::holdings::qty_of(hs, row.asset) {
                        let next = import_fold(
                            crate::holdings::sell_holdings(hs, row.asset, row.quantity),
                            rest,
                            m,
                        );
                        (next.0, seq![row] + next.1)
                    } else {
                        import_fold(hs, rest, m)
                    }
                },
            }
        }
    }
}

/// What an import run did: how many rows went in, how many were skipped,
/// how many failed, and the first few failures with their line numbers.
#[derive(Debug)]
pub struct ImportOutcome {
    pub imported: usize,
    pub skipped: usize,
    pub errors: usize,
    pub failures: Vec<(usize, RowError)>,
}

/// Applies a CSV trade history to the ledger, line by line.  The first
/// line is the header; every required column must be present.  Each valid
/// row becomes a trade (stamped from its date cell) and moves the
/// holdings — a buy grows the position, a sell shrinks it and is skipped
/// with an error when more is sold than is held.  Cash, pending orders and
/// the watchlist are never touched; a failed row never halts the rest.
/// When nothing was imported and at least one row failed, the whole run is
/// reported as failed, the ledger untouched.
#[verifier::loop_isolation(false)]
pub fn import_trades_from_lines(state: &mut AppState, lines: &Vec<String>) -> (r: Result<
    ImportOutcome,
    RowError,
>)
    requires
        old(state).wf(),
    ensures
        final(state).wf(),
        final(state)@.cash == old(state)@.cash,
        final(state)@.open_orders == old(state)@.open_orders,
        final(state)@.watchlist == old(state)@.watchlist,
        match r {
            Ok(outcome) => ({
                let data = string_views(lines@).subrange(1, lines@.len() as int);
                let hm = header_entries(csv_fields(lines@[0]@), 0);
                let run = import_fold(old(state)@.holdings, data, hm);
                &&& final(state)@.holdings == run.0
                &&& outcome.imported == run.1.len()
                &&& final(state)@.trades.len() == old(state)@.trades.len() + outcome.imported
                &&& final(state)@.trades.subrange(0, old(state)@.trades.len() as int) == old(
                    state,
                )@.trades
                &&& forall|k: int|
                    0 <= k < run.1.len() ==> {
                        let t = final(state)@.trades[old(state)@.trades.len() + k];
                        &&& t.symbol == (#[trigger] run.1[k]).asset
                        &&& t.quantity == run.1[k].quantity
                        &&& t.price_per == run.1[k].price
                        &&& t.side == run.1[k].side
                    }
                &&& outcome.skipped == outcome.errors
                &&& outcome.failures@.len() <= 3
                &&& (outcome.errors == 0 || outcome.imported > 0)
            }),
            Err(_) => final(state)@ == old(state)@,
        },
        r == Err::<ImportOutcome, RowError>(RowError::EmptyInput) <==> lines@.len() == 0,
        lines@.len() > 0 ==> (r == Err::<ImportOutcome, RowError>(RowError::MissingColumn) <==> ({
            let hm = header_entries(csv_fields(lines@[0]@), 0);
            ||| lookup_header(hm, "date"@) is None
            ||| lookup_header(hm, "asset"@) is None
            ||| lookup_header(hm, "asset_type"@) is None
            ||| lookup_header(hm, "side"@) is None
            ||| lookup_header(hm, "quantity"@) is None
            ||| lookup_header(hm, "price"@) is None
        })),
{
    if lines.len() == 0 {
        return Err(RowError::EmptyInput);
    }
    let headers = parse_csv_row(lines[0].as_str());
    let header_map = build_header_map(&headers);
    if lookup_in_map(&header_map, "date").is_none() || lookup_in_map(
        &header_map,
        "asset",
    ).is_none() || lookup_in_map(&header_map, "asset_type").is_none() || lookup_in_map(
        &header_map,
        "side",
    ).is_none() || lookup_in_map(&header_map, "quantity").is_none() || lookup_in_map(
        &header_map,
        "price",
    ).is_none() {
        return Err(RowError::MissingColumn);
    }
    let ghost hmv = pair_views(header_map@);
    let ghost hs0 = state@.holdings;
    let ghost tr0 = state@.trades;
    let n = lines.len();
    let ghost data = string_views(lines@).subrange(1, n as int);
    let ghost run = import_fold(hs0, data, hmv);
    let ghost mut done: Seq<RowView> = Seq::empty();
    let mut imported: usize = 0;
    let mut skipped: usize = 0;
    let mut errors: usize = 0;
    let mut failures: Vec<(usize, RowError)> = Vec::new();
    let mut i: usize = 1;
    proof {
        assert(data.subrange(0, data.len() as int) =~= data);
        assert(tr0.subrange(0, tr0.len() as int) =~= tr0);
    }
    while i < n
        invariant
            1 <= i <= n,
            n == lines.len(),
            state.wf(),
            state@.cash == old(state)@.cash,
            state@.open_orders == old(state)@.open_orders,
            state@.watchlist == old(state)@.watchlist,
            run == import_fold(hs0, data, hmv),
            run.0 == import_fold(
                state@.holdings,
                data.subrange((i - 1) as int, data.len() as int),
                hmv,
            ).0,
            run.1 =~= done + import_fold(
                state@.holdings,
                data.subrange((i - 1) as int, data.len() as int),
                hmv,
            ).1,
            imported == done.len(),
            state@.trades.len() == tr0.len() + done.len(),
            state@.trades.subrange(0, tr0.len() as int) == tr0,
            forall|k: int|
                0 <= k < done.len() ==> {
                    let t = state@.trades[tr0.len() + k];
                    &&& t.symbol == (#[trigger] done[k]).asset
                    &&& t.quantity == done[k].quantity
                    &&& t.price_per == done[k].price
                    &&& t.side == done[k].side
                },
            imported == 0 ==> state@ == old(state)@,
            imported <= i,
            skipped == errors,
            errors <= i,
            failures@.len() <= 3,
        decreases n - i,
    {
        let ghost suffix = data.subrange((i - 1) as int, data.len() as int);
        let ghost cur_hs = state@.holdings;
        proof {
            assert(suffix[0] == lines@[i as int]@);
            assert(suffix.drop_first() =~= data.subrange(i as int, data.len() as int));
        }
        let line_number = i + 1;
        let raw = lines[i].as_str();
        let trimmed_probe = trim_to_string(raw);
        if trimmed_probe.as_str().is_empty() {
            i = i + 1;
            continue ;
        }
        let cols = parse_csv_row(raw);
        match parse_trade_row(&cols, &header_map) {
            Err(e) => {
                errors = errors + 1;
                skipped = skipped + 1;
                if failures.len() < 3 {
                    failures.push((line_number, e));
                }
            },
            Ok(row) => {
                let ghost rowv = row@;
                proof {
                    assert(row_of(csv_fields(suffix[0]), hmv) == Ok::<RowView, RowError>(rowv));
                }
                let ts = parse_date_to_timestamp(row.date.as_str());
                match row.side {
                    Side::Buy => {
                        let held = state.get_ticker_holdings_qty(&row.asset);
                        proof {
                            assert(held@ >= 0) by {
                                let hs = state@.holdings;
                                if crate::holdings::holds(hs, row.asset@) {
                                    let idx = crate::holdings::idx_of(hs, row.asset@);
                                    assert(hs[idx].quantity > 0);
                                }
                            }
                        }
                        match held.checked_plus(row.quantity) {
                            None => {
                                proof {
                                    assert(crate::holdings::qty_of(cur_hs, rowv.asset)
                                        + rowv.quantity > i64::MAX);
                                }
                                errors = errors + 1;
                                skipped = skipped + 1;
                                if failures.len() < 3 {
                                    failures.push((line_number, RowError::Overflow));
                                }
                            },
                            Some(grown) => {
                                proof {
                                    assert(grown@ <= i64::MAX);
                                }
                                let ghost tr_before = state@.trades;
                                let trade = crate::orders::Trade::from_database(
                                    row.asset.clone(),
                                    row.quantity,
                                    row.price,
                                    Side::Buy,
                                    ts,
                                );
                                state.add_trade(trade);
                                state.add_to_holdings(&row.asset, row.quantity, row.price);
                                imported = imported + 1;
                                proof {
                                    let step = import_fold(cur_hs, suffix, hmv);
                                    let next = import_fold(
                                        state@.holdings,
                                        suffix.drop_first(),
                                        hmv,
                                    );
                                    assert(step.1 == seq![rowv] + next.1);
                                    assert(done + (seq![rowv] + next.1) =~= done.push(rowv)
                                        + next.1);
                                    done = done.push(rowv);
                                    assert(state@.trades == tr_before.push(
                                        state@.trades.last(),
                                    ));
                                    assert(state@.trades.subrange(0, tr0.len() as int) =~= tr0);
                                    assert forall|k: int| 0 <= k < done.len() implies {
                                        let t = state@.trades[tr0.len() + k];
                                        &&& t.symbol == (#[trigger] done[k]).asset
                                        &&& t.quantity == done[k].quantity
                                        &&& t.price_per == done[k].price
                                        &&& t.side == done[k].side
                                    } by {
                                        if k < done.len() - 1 {
                                            assert(state@.trades[tr0.len() + k] == tr_before[
                                                tr0.len() + k]);
                                            assert(done[k] == done.drop_last()[k]);
                                        }
                                    }
                                }
                            },
                        }
                    },
                    Side::Sell => {
                        let available = state.get_ticker_holdings_qty(&row.asset);
                        if available < row.quantity {
                            errors = errors + 1;
                            skipped = skipped + 1;
                            if failures.len() < 3 {
                                failures.push((line_number, RowError::InsufficientHoldings));
                            }
                        } else {
                            let ghost tr_before = state@.trades;
                            let trade = crate::orders::Trade::from_database(
                                row.asset.clone(),
                                row.quantity,
                                row.price,
                                Side::Sell,
                                ts,
                            );
                            state.add_trade(trade);
                            state.remove_from_holdings(&row.asset, row.quantity);
                            imported = imported + 1;
                            proof {
                                let step = import_fold(cur_hs, suffix, hmv);
                                let next = import_fold(
                                    state@.holdings,
                                    suffix.drop_first(),
                                    hmv,
                                );
                                assert(step.1 == seq![rowv] + next.1);
                                assert(done + (seq![rowv] + next.1) =~= done.push(rowv) + next.1);
                                done = done.push(rowv);
                                assert(state@.trades == tr_before.push(state@.trades.last()));
                                assert(state@.trades.subrange(0, tr0.len() as int) =~= tr0);
                                assert forall|k: int| 0 <= k < done.len() implies {
                                    let t = state@.trades[tr0.len() + k];
                                    &&& t.symbol == (#[trigger] done[k]).asset
                                    &&& t.quantity == done[k].quantity
                                    &&& t.price_per == done[k].price
                                    &&& t.side == done[k].side
                                } by {
                                    if k < done.len() - 1 {
                                        assert(state@.trades[tr0.len() + k] == tr_before[tr0.len()
                                            + k]);
                                        assert(done[k] == done.drop_last()[k]);
                                    }
                                }
                            }
                        }
                    },
                }
            },
        }
        i = i + 1;
    }
    proof {
        assert(data.subrange((n - 1) as int, data.len() as int) =~= Seq::<Seq<char>>::empty());
        assert(run.1 =~= done);
    }
    if imported == 0 && errors > 0 {
        return Err(RowError::NothingImported);
    }
    Ok(ImportOutcome { imported, skipped, errors, failures })
}

} // verus!
