//! Reading the symbol directory of an exchange: which rows list a security,
//! and what a whole listing adds to the securities held.

use super::exchanges::Exchange;
use super::securities::{Securities, Security, SecurityView};
use crate::text::{begins_with, same_text};
use csv::ReaderBuilder;
use vstd::prelude::*;

verus! {

/// The error of the csv crate, which is carried to the caller as it came.
#[verifier::external_type_specification]
#[verifier::external_body]
pub struct ExCsvError(csv::Error);

/// Why a listing could not be read to its end.
#[derive(Debug)]
pub enum ListingError {
    /// The listing is not well-formed delimited text.
    Malformed(csv::Error),
    /// A row is too short to hold a field that had to be read.
    MissingField,
}

/// What a row of a symbol directory says of a security.
pub ghost enum Reading {
    /// The row lists a security in good standing.
    Listed(SecurityView),
    /// The row is passed over: a test issue, a security whose financial
    /// status is not normal, or the line that closes the file.
    PassedOver,
    /// The row ends before a field that had to be read.
    TooShort,
}

impl Security {
    /// Reads a row of a symbol directory, field by field and in this order:
    /// the fourth field tells a test issue (anything but `N`), the fifth a
    /// financial status that is not normal (anything but `N`); the first and
    /// second fields are the symbol and the name, and the seventh says with
    /// `Y` that the security is a fund. The line that closes the file, whose
    /// first field begins with `File Creation`, lists nothing.
    pub open spec fn reading(row: Seq<Seq<char>>, exchange: Exchange) -> Reading {
        if row.len() <= 3 {
            Reading::TooShort
        } else if row[3] != "N"@ {
            Reading::PassedOver
        } else if row.len() <= 4 {
            Reading::TooShort
        } else if row[4] != "N"@ {
            Reading::PassedOver
        } else if row.len() <= 6 {
            Reading::TooShort
        } else if "File Creation"@.is_prefix_of(row[0]) {
            Reading::PassedOver
        } else {
            Reading::Listed(
                SecurityView { symbol: row[0], name: row[1], exchange, isETF: row[6] == "Y"@ },
            )
        }
    }

    /// The fields of a row as sequences of characters.
    pub open spec fn fields(row: Seq<String>) -> Seq<Seq<char>> {
        row.map_values(|field: String| field@)
    }

    /// Reads one row of a symbol directory: the security that it lists, or
    /// `None` for a row that is passed over.
    pub fn from_row(row: &Vec<String>, exchange: Exchange) -> (read: Result<Option<Security>, ListingError>)
        ensures
            match Self::reading(Self::fields(row@), exchange) {
                Reading::Listed(listed) => read matches Ok(Some(security)) && security@ == listed,
                Reading::PassedOver => read matches Ok(None),
                Reading::TooShort => read matches Err(ListingError::MissingField),
            },
    {
        if row.len() <= 3 {
            return Err(ListingError::MissingField);
        }
        if !same_text(row[3].as_str(), "N") {
            return Ok(None);
        }
        if row.len() <= 4 {
            return Err(ListingError::MissingField);
        }
        if !same_text(row[4].as_str(), "N") {
            return Ok(None);
        }
        if row.len() <= 6 {
            return Err(ListingError::MissingField);
        }
        if begins_with(row[0].as_str(), "File Creation") {
            return Ok(None);
        }
        Ok(
            Some(
                Security {
                    symbol: row[0].clone(),
                    name: row[1].clone(),
                    exchange,
                    isETF: same_text(row[6].as_str(), "Y"),
                },
            ),
        )
    }
}

/// The fields of a row, or the error of a row that could not be read.
pub type Row = Result<Seq<Seq<char>>, csv::Error>;

/// The rows that the csv crate reads from delimited text whose first row is
/// a header: for each row after the header its fields, or the error of a row
/// that it cannot read.
pub uninterp spec fn delimited_rows(data: Seq<u8>, delimiter: u8) -> Seq<Result<Seq<Seq<char>>, csv::Error>>;

/// The rows that were read, with their fields as sequences of characters.
pub open spec fn rows_read(rows: Seq<Result<Vec<String>, csv::Error>>) -> Seq<Row> {
    rows.map_values(
        |row: Result<Vec<String>, csv::Error>|
            match row {
                Ok(fields) => Ok(Security::fields(fields@)),
                Err(error) => Err(error),
            },
    )
}

/// Reads delimited text with the csv crate: a reader made by
/// `ReaderBuilder::new`, with `delimiter` set, over the bytes, and all that
/// its `records` hands out, each record as the list of its fields. What is
/// claimed is that the rows depend on the bytes and the delimiter alone.
#[verifier::external_body]
fn read_rows(data: &[u8], delimiter: u8) -> (rows: Vec<Result<Vec<String>, csv::Error>>)
    ensures
        rows_read(rows@) == delimited_rows(data@, delimiter),
{
    ReaderBuilder::new()
        .delimiter(delimiter)
        .from_reader(data)
        .records()
        .map(|row| row.map(|fields| fields.iter().map(String::from).collect()))
        .collect()
}

/// Whether reading stops at the row: it could not be read, or it ends
/// before a field that had to be read.
pub open spec fn halts(row: Row, exchange: Exchange) -> bool {
    match row {
        Ok(fields) => Security::reading(fields, exchange) is TooShort,
        Err(_) => true,
    }
}

/// The number of rows that are read before reading stops.
pub open spec fn readable(rows: Seq<Row>, exchange: Exchange) -> nat
    decreases rows.len(),
{
    if rows.len() == 0 || halts(rows[0], exchange) {
        0
    } else {
        1 + readable(rows.drop_first(), exchange)
    }
}

/// The securities held once a row has been read: the security that the row
/// lists is held under its symbol, and any other row changes nothing.
pub open spec fn with_row(held: Map<Seq<char>, SecurityView>, row: Row, exchange: Exchange) -> Map<
    Seq<char>,
    SecurityView,
> {
    match row {
        Ok(fields) => match Security::reading(fields, exchange) {
            Reading::Listed(security) => held.insert(security.symbol, security),
            _ => held,
        },
        Err(_) => held,
    }
}

/// The securities held once the rows have been read, one after another.
pub open spec fn with_rows(held: Map<Seq<char>, SecurityView>, rows: Seq<Row>, exchange: Exchange) -> Map<
    Seq<char>,
    SecurityView,
> {
    rows.fold_left(held, |held: Map<Seq<char>, SecurityView>, row: Row| with_row(held, row, exchange))
}

/// What reading the rows answers: success where no row stops the reading,
/// and else the error of the first row that does.
pub open spec fn answer(rows: Seq<Row>, exchange: Exchange) -> Result<(), ListingError> {
    let count = readable(rows, exchange) as int;
    if count == rows.len() {
        Ok(())
    } else {
        match rows[count] {
            Ok(_) => Err(ListingError::MissingField),
            Err(error) => Err(ListingError::Malformed(error)),
        }
    }
}

/// Rows of which none stops the reading, up to a row that does or to the
/// end, are the rows that are read.
proof fn lemma_readable(rows: Seq<Row>, exchange: Exchange, count: int)
    requires
        0 <= count <= rows.len(),
        forall|j: int| 0 <= j < count ==> !halts(#[trigger] rows[j], exchange),
        count < rows.len() ==> halts(rows[count], exchange),
    ensures
        readable(rows, exchange) == count,
    decreases count,
{
    if count > 0 {
        let rest = rows.drop_first();
        assert forall|j: int| 0 <= j < count - 1 implies !halts(#[trigger] rest[j], exchange) by {
            assert(rest[j] == rows[j + 1]);
        }
        lemma_readable(rest, exchange, count - 1);
    }
}

impl Securities {
    /// Reads rows of a symbol directory one after another and holds the
    /// securities that they list. Reading stops with an error at the first
    /// row that could not be read or that is too short; the securities of
    /// the rows before it stay.
    pub fn add_rows(
        &mut self,
        rows: Vec<Result<Vec<String>, csv::Error>>,
        exchange: Exchange,
    ) -> (outcome: Result<(), ListingError>)
        ensures
            final(self)@ == with_rows(
                old(self)@,
                rows_read(rows@).take(readable(rows_read(rows@), exchange) as int),
                exchange,
            ),
            outcome == answer(rows_read(rows@), exchange),
    {
        let ghost all = rows_read(rows@);
        let ghost before = self@;
        proof {
            assert(all.take(0) =~= Seq::<Row>::empty());
        }
        for row in it: rows.into_iter()
            invariant
                all == rows_read(rows@),
                before == old(self)@,
                it.seq() == rows@,
                forall|j: int| 0 <= j < it.index() ==> !halts(#[trigger] all[j], exchange),
                self@ == with_rows(before, all.take(it.index() as int), exchange),
        {
            let ghost at = it.index() as int;
            match row {
                Err(error) => {
                    proof {
                        lemma_readable(all, exchange, at);
                    }
                    return Err(ListingError::Malformed(error));
                },
                Ok(fields) => {
                    match Security::from_row(&fields, exchange) {
                        Err(error) => {
                            proof {
                                lemma_readable(all, exchange, at);
                            }
                            return Err(error);
                        },
                        Ok(Some(security)) => {
                            self.insert(security);
                        },
                        Ok(None) => {},
                    }
                    proof {
                        assert(all.take(at + 1).drop_last() =~= all.take(at));
                    }
                },
            }
        }
        proof {
            lemma_readable(all, exchange, all.len() as int);
            assert(all.take(all.len() as int) =~= all);
        }
        Ok(())
    }

    /// Reads the symbol directory of an exchange, as the bytes of its file,
    /// and holds the securities that it lists. The file is text with one row
    /// to a line and `|` between the fields; its first row names the fields.
    /// Reading stops with an error as in [`Securities::add_rows`].
    pub fn import(&mut self, exchange: Exchange, listing: &[u8]) -> (outcome: Result<(), ListingError>)
        ensures
            final(self)@ == with_rows(
                old(self)@,
                delimited_rows(listing@, 0x7c).take(
                    readable(delimited_rows(listing@, 0x7c), exchange) as int,
                ),
                exchange,
            ),
            outcome == answer(delimited_rows(listing@, 0x7c), exchange),
    {
        self.add_rows(read_rows(listing, 0x7c), exchange)
    }
}

} // verus!
