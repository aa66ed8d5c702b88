//! Loader for CSV files.
//!
//! The file is parsed by the `csv` crate. The loader picks the columns,
//! turns each row into a line of text, and assembles the text and the
//! metadata.

use vstd::prelude::*;
use crate::document::{check_size, size_ok, Document, LoaderError, LoaderOptions};
use crate::text::{
    blank, chars_of, decimal, is_blank, join, join_chars, push_decimal, string_of, str_views,
    strings_as_chars, text_is, views,
};

verus! {

/// What a list of fields, or the error in its place, stands for.
pub open spec fn record_view(r: Result<Vec<String>, String>) -> Result<Seq<Seq<char>>, Seq<char>> {
    match r {
        Ok(fields) => Ok(str_views(fields@)),
        Err(e) => Err(e@),
    }
}

/// The fields of the header row that `csv::Reader::headers` gives for the
/// bytes with this delimiter, or the message of its error.
pub uninterp spec fn csv_head(bytes: Seq<u8>, delimiter: u8) -> Result<Seq<Seq<char>>, Seq<char>>;

/// The records that `csv::Reader::records` yields for the bytes with this
/// delimiter, the first row being taken for a header row or not: for each
/// record its fields, or the message of its error.
pub uninterp spec fn csv_body(bytes: Seq<u8>, delimiter: u8, has_headers: bool) -> Seq<
    Result<Seq<Seq<char>>, Seq<char>>,
>;

/// Builds a reader with `csv::ReaderBuilder` for this delimiter, the first
/// row being a header row, and asks `headers` of it. The reader reads the
/// bytes alone, so the result is what [`csv_head`] names.
#[verifier::external_body]
pub(crate) fn csv_headers(bytes: &[u8], delimiter: u8) -> (r: Result<Vec<String>, String>)
    ensures
        record_view(r) == csv_head(bytes@, delimiter),
{
    let mut rdr = csv::ReaderBuilder::new().delimiter(delimiter).has_headers(true).from_reader(bytes);
    match rdr.headers() {
        Ok(h) => Ok(h.iter().map(String::from).collect()),
        Err(e) => Err(e.to_string()),
    }
}

/// Builds a reader with `csv::ReaderBuilder` for this delimiter and header
/// setting and collects what `records` yields. The reader reads the bytes
/// alone, so the result is what [`csv_body`] names.
#[verifier::external_body]
pub(crate) fn csv_records(bytes: &[u8], delimiter: u8, has_headers: bool) -> (r: Vec<
    Result<Vec<String>, String>,
>)
    ensures
        r@.map_values(|x: Result<Vec<String>, String>| record_view(x)) == csv_body(
            bytes@,
            delimiter,
            has_headers,
        ),
{
    let mut rdr = csv::ReaderBuilder::new().delimiter(delimiter).has_headers(has_headers).from_reader(bytes);
    let fields = |rec: csv::StringRecord| rec.iter().map(String::from).collect();
    rdr.records().map(|r| r.map(fields).map_err(|e| e.to_string())).collect()
}

/// The first position of `name` among `headers`, or -1.
pub open spec fn position_of(headers: Seq<Seq<char>>, name: Seq<char>) -> int
    decreases headers.len(),
{
    if headers.len() == 0 {
        -1
    } else if position_of(headers.drop_last(), name) >= 0 {
        position_of(headers.drop_last(), name)
    } else if headers.last() == name {
        headers.len() - 1
    } else {
        -1
    }
}

/// The positions of the wanted columns that the headers name, in the order
/// in which they are wanted.
pub open spec fn picked(headers: Seq<Seq<char>>, wanted: Seq<Seq<char>>) -> Seq<int>
    decreases wanted.len(),
{
    if wanted.len() == 0 {
        Seq::empty()
    } else if position_of(headers, wanted.last()) >= 0 {
        picked(headers, wanted.drop_last()).push(position_of(headers, wanted.last()))
    } else {
        picked(headers, wanted.drop_last())
    }
}

/// The fields of a record at the given positions, as far as the record has
/// them.
pub open spec fn fields_at(record: Seq<Seq<char>>, positions: Seq<int>) -> Seq<Seq<char>>
    decreases positions.len(),
{
    if positions.len() == 0 {
        Seq::empty()
    } else if 0 <= positions.last() < record.len() {
        fields_at(record, positions.drop_last()).push(record[positions.last()])
    } else {
        fields_at(record, positions.drop_last())
    }
}

/// The columns that are extracted: those that are wanted and named, where
/// some are wanted and there are headers; every column otherwise.
pub open spec fn selection(headers: Seq<Seq<char>>, wanted: Option<Seq<Seq<char>>>) -> Option<Seq<int>> {
    if wanted is Some && headers.len() > 0 {
        Some(picked(headers, wanted->Some_0))
    } else {
        None
    }
}

/// The line of text for a record: its selected fields, a space between
/// them.
pub open spec fn row_text(record: Seq<Seq<char>>, columns: Option<Seq<int>>) -> Seq<char> {
    match columns {
        Some(c) => join(fields_at(record, c), seq![' ']),
        None => join(record, seq![' ']),
    }
}

/// The lines of text for the first `n` records, or the message of the
/// first record that is an error. Blank lines are dropped.
pub open spec fn row_lines(
    records: Seq<Result<Seq<Seq<char>>, Seq<char>>>,
    columns: Option<Seq<int>>,
    n: nat,
) -> Result<Seq<Seq<char>>, Seq<char>>
    decreases n,
{
    if n == 0 || n > records.len() {
        Ok(Seq::empty())
    } else {
        match row_lines(records, columns, (n - 1) as nat) {
            Err(e) => Err(e),
            Ok(lines) => match records[n - 1] {
                Err(e) => Err(e),
                Ok(record) => if is_blank(row_text(record, columns)) {
                    Ok(lines)
                } else {
                    Ok(lines.push(row_text(record, columns)))
                },
            },
        }
    }
}

/// An error among the first `n` records is the error of all the records.
pub proof fn lemma_row_error_stays(
    records: Seq<Result<Seq<Seq<char>>, Seq<char>>>,
    columns: Option<Seq<int>>,
    n: nat,
)
    requires
        n <= records.len(),
        row_lines(records, columns, n) is Err,
    ensures
        row_lines(records, columns, records.len()) == row_lines(records, columns, n),
    decreases records.len() - n,
{
    if n < records.len() {
        lemma_row_error_stays(records, columns, n + 1);
    }
}

/// What a CSV loader holds.
pub struct CsvLoaderModel {
    pub delimiter: u8,
    pub has_headers: bool,
    pub extract_columns: Option<Seq<Seq<char>>>,
    pub row_separator: Seq<char>,
}

/// Loader for CSV files.
#[derive(Debug)]
pub struct CsvLoader {
    /// The byte that separates fields.
    pub delimiter: u8,
    /// Whether the first row names the columns.
    pub has_headers: bool,
    /// The columns to extract; all where none are named.
    pub extract_columns: Option<Vec<String>>,
    /// What stands between two rows of the text.
    pub row_separator: String,
}

impl View for CsvLoader {
    type V = CsvLoaderModel;

    open spec fn view(&self) -> CsvLoaderModel {
        CsvLoaderModel {
            delimiter: self.delimiter,
            has_headers: self.has_headers,
            extract_columns: match self.extract_columns {
                Some(c) => Some(str_views(c@)),
                None => None,
            },
            row_separator: self.row_separator@,
        }
    }
}

/// The headers that a loader works with: those of the file where the
/// loader takes the first row for headers, none otherwise.
pub open spec fn headers_for(l: CsvLoaderModel, bytes: Seq<u8>) -> Result<Seq<Seq<char>>, Seq<char>> {
    if l.has_headers {
        csv_head(bytes, l.delimiter)
    } else {
        Ok(Seq::empty())
    }
}

/// What the loader records of a file: the format and the number of lines;
/// the names of the columns where there are headers; the columns that were
/// wanted where some were.
pub open spec fn csv_metadata(l: CsvLoaderModel, headers: Seq<Seq<char>>, rows: nat) -> Map<
    Seq<char>,
    Seq<char>,
> {
    let base = Map::<Seq<char>, Seq<char>>::empty().insert("format"@, "csv"@).insert(
        "row_count"@,
        decimal(rows),
    );
    let named = if l.has_headers && headers.len() > 0 {
        base.insert("columns"@, join(headers, seq![',']))
    } else {
        base
    };
    match l.extract_columns {
        Some(c) => named.insert("extracted_columns"@, join(c, seq![','])),
        None => named,
    }
}

/// The first position of `name` among `headers`.
pub fn position(headers: &Vec<String>, name: &str) -> (r: Option<usize>)
    ensures
        match r {
            Some(i) => position_of(str_views(headers@), name@) == i,
            None => position_of(str_views(headers@), name@) == -1,
        },
{
    let ghost all = str_views(headers@);
    let mut i: usize = 0;
    assert(all.take(0) =~= Seq::<Seq<char>>::empty());
    while i < headers.len()
        invariant
            i <= headers.len(),
            all == str_views(headers@),
            position_of(all.take(i as int), name@) == -1,
        decreases headers.len() - i,
    {
        proof {
            assert(all.take(i as int + 1).drop_last() =~= all.take(i as int));
            assert(all.take(i as int + 1).last() == headers@[i as int]@);
        }
        if text_is(headers[i].as_str(), name) {
            proof {
                lemma_position_stays(all, name@, i as int + 1);
            }
            return Some(i);
        }
        i += 1;
    }
    assert(all.take(i as int) =~= all);
    None
}

/// A position found among the first `n` headers is the position among all
/// of them.
pub proof fn lemma_position_stays(headers: Seq<Seq<char>>, name: Seq<char>, n: int)
    requires
        0 <= n <= headers.len(),
        position_of(headers.take(n), name) >= 0,
    ensures
        position_of(headers, name) == position_of(headers.take(n), name),
    decreases headers.len() - n,
{
    if n < headers.len() {
        assert(headers.take(n + 1).drop_last() =~= headers.take(n));
        lemma_position_stays(headers, name, n + 1);
    } else {
        assert(headers.take(n) =~= headers);
    }
}

/// The views of positions.
pub open spec fn ints(v: Seq<usize>) -> Seq<int> {
    v.map_values(|i: usize| i as int)
}

impl CsvLoader {
    /// A loader for comma-separated files with a header row, which
    /// extracts every column and puts a line feed between rows.
    pub fn new() -> (l: CsvLoader)
        ensures
            l@ == (CsvLoaderModel {
                delimiter: 44u8,
                has_headers: true,
                extract_columns: None,
                row_separator: "\n"@,
            }),
    {
        CsvLoader {
            delimiter: 44u8,
            has_headers: true,
            extract_columns: None,
            row_separator: "\n".to_owned(),
        }
    }

    /// Sets the byte that separates fields.
    pub fn with_delimiter(self, delimiter: u8) -> (l: CsvLoader)
        ensures
            l@ == (CsvLoaderModel { delimiter, ..self@ }),
    {
        CsvLoader {
            delimiter,
            has_headers: self.has_headers,
            extract_columns: self.extract_columns,
            row_separator: self.row_separator,
        }
    }

    /// Says whether the first row names the columns.
    pub fn with_headers(self, has_headers: bool) -> (l: CsvLoader)
        ensures
            l@ == (CsvLoaderModel { has_headers, ..self@ }),
    {
        CsvLoader {
            delimiter: self.delimiter,
            has_headers,
            extract_columns: self.extract_columns,
            row_separator: self.row_separator,
        }
    }

    /// Names the columns to extract.
    pub fn with_columns(self, columns: Vec<String>) -> (l: CsvLoader)
        ensures
            l@ == (CsvLoaderModel { extract_columns: Some(str_views(columns@)), ..self@ }),
    {
        CsvLoader {
            delimiter: self.delimiter,
            has_headers: self.has_headers,
            extract_columns: Some(columns),
            row_separator: self.row_separator,
        }
    }

    /// Sets what stands between two rows of the text.
    pub fn with_row_separator(self, separator: &str) -> (l: CsvLoader)
        ensures
            l@ == (CsvLoaderModel { row_separator: separator@, ..self@ }),
    {
        CsvLoader {
            delimiter: self.delimiter,
            has_headers: self.has_headers,
            extract_columns: self.extract_columns,
            row_separator: separator.to_owned(),
        }
    }

    /// The columns to extract from records with these headers.
    pub fn select_columns(&self, headers: &Vec<String>) -> (r: Option<Vec<usize>>)
        ensures
            match r {
                Some(c) => selection(str_views(headers@), self@.extract_columns) == Some(ints(c@)),
                None => selection(str_views(headers@), self@.extract_columns) is None,
            },
    {
        match &self.extract_columns {
            Some(wanted) => {
                if headers.len() == 0 {
                    return None;
                }
                let ghost all = str_views(wanted@);
                let mut out: Vec<usize> = Vec::new();
                let mut i: usize = 0;
                assert(all.take(0) =~= Seq::<Seq<char>>::empty());
                assert(ints(out@) =~= Seq::<int>::empty());
                while i < wanted.len()
                    invariant
                        i <= wanted.len(),
                        all == str_views(wanted@),
                        ints(out@) == picked(str_views(headers@), all.take(i as int)),
                    decreases wanted.len() - i,
                {
                    proof {
                        assert(all.take(i as int + 1).drop_last() =~= all.take(i as int));
                        assert(all.take(i as int + 1).last() == wanted@[i as int]@);
                    }
                    match position(headers, wanted[i].as_str()) {
                        Some(p) => {
                            let ghost out0 = out@;
                            out.push(p);
                            assert(ints(out@) =~= ints(out0).push(p as int));
                        },
                        None => {},
                    }
                    i += 1;
                }
                assert(all.take(i as int) =~= all);
                Some(out)
            },
            None => None,
        }
    }

    /// The line of text for a record.
    pub fn row_text_of(record: &Vec<String>, columns: &Option<Vec<usize>>) -> (out: Vec<char>)
        ensures
            out@ == row_text(
                str_views(record@),
                match columns {
                    Some(c) => Some(ints(c@)),
                    None => None,
                },
            ),
    {
        let sep = chars_of(" ");
        proof {
            reveal_strlit(" ");
            assert(sep@ =~= seq![' ']);
        }
        let mut parts: Vec<Vec<char>> = Vec::new();
        assert(views(parts@) =~= Seq::<Seq<char>>::empty());
        match columns {
            Some(c) => {
                let ghost all = ints(c@);
                let mut i: usize = 0;
                assert(all.take(0) =~= Seq::<int>::empty());
                while i < c.len()
                    invariant
                        i <= c.len(),
                        all == ints(c@),
                        views(parts@) == fields_at(str_views(record@), all.take(i as int)),
                    decreases c.len() - i,
                {
                    proof {
                        assert(all.take(i as int + 1).drop_last() =~= all.take(i as int));
                        assert(all.take(i as int + 1).last() == c@[i as int] as int);
                    }
                    if c[i] < record.len() {
                        let ghost parts0 = parts@;
                        let f = chars_of(record[c[i]].as_str());
                        parts.push(f);
                        assert(views(parts@) =~= views(parts0).push(f@));
                    }
                    i += 1;
                }
                assert(all.take(i as int) =~= all);
            },
            None => {
                let mut i: usize = 0;
                while i < record.len()
                    invariant
                        i <= record.len(),
                        views(parts@) == str_views(record@).take(i as int),
                    decreases record.len() - i,
                {
                    let ghost parts0 = parts@;
                    let f = chars_of(record[i].as_str());
                    parts.push(f);
                    assert(views(parts@) =~= views(parts0).push(f@));
                    assert(views(parts@) =~= str_views(record@).take(i as int + 1));
                    i += 1;
                }
                assert(str_views(record@).take(i as int) =~= str_views(record@));
            },
        }
        join_chars(&parts, &sep)
    }

    /// The document for a file that was parsed: the lines of its records,
    /// the row separator between them, with the metadata. The first record
    /// that is an error is reported with the message of the parser.
    pub fn assemble(
        &self,
        source: &str,
        headers: &Vec<String>,
        records: &Vec<Result<Vec<String>, String>>,
    ) -> (r: Result<Document, LoaderError>)
        ensures
            match row_lines(
                records@.map_values(|x: Result<Vec<String>, String>| record_view(x)),
                selection(str_views(headers@), self@.extract_columns),
                records@.len(),
            ) {
                Err(e) => r is Err && r->Err_0 is ParseError && r->Err_0->ParseError_0@ == e,
                Ok(lines) => r is Ok && r->Ok_0@.source == source@ && r->Ok_0@.content == join(
                    lines,
                    self.row_separator@,
                ) && r->Ok_0@.metadata == csv_metadata(self@, str_views(headers@), lines.len()),
            },
    {
        let columns = self.select_columns(headers);
        let ghost cols = selection(str_views(headers@), self@.extract_columns);
        let ghost body = records@.map_values(|x: Result<Vec<String>, String>| record_view(x));
        let mut lines: Vec<Vec<char>> = Vec::new();
        let mut i: usize = 0;
        assert(views(lines@) =~= Seq::<Seq<char>>::empty());
        while i < records.len()
            invariant
                i <= records.len(),
                body == records@.map_values(|x: Result<Vec<String>, String>| record_view(x)),
                cols == selection(str_views(headers@), self@.extract_columns),
                cols == match columns {
                    Some(c) => Some(ints(c@)),
                    None => None,
                },
                row_lines(body, cols, i as nat) == Ok::<Seq<Seq<char>>, Seq<char>>(views(lines@)),
            decreases records.len() - i,
        {
            assert(body[i as int] == record_view(records@[i as int]));
            match &records[i] {
                Ok(record) => {
                    let text = Self::row_text_of(record, &columns);
                    if !blank(&text) {
                        let ghost lines0 = lines@;
                        lines.push(text);
                        assert(views(lines@) =~= views(lines0).push(text@));
                    }
                },
                Err(e) => {
                    proof {
                        lemma_row_error_stays(body, cols, i as nat + 1);
                    }
                    return Err(LoaderError::ParseError(e.clone()));
                },
            }
            i += 1;
        }
        let sep = chars_of(self.row_separator.as_str());
        let content = string_of(&join_chars(&lines, &sep));
        let mut document = Document::new(content, source.to_owned());
        document.add_metadata("format", "csv");
        let mut count: Vec<char> = Vec::new();
        push_decimal(&mut count, lines.len());
        assert(count@ =~= decimal(views(lines@).len()));
        document.add_metadata("row_count", string_of(&count).as_str());
        let comma = chars_of(",");
        proof {
            reveal_strlit(",");
            assert(comma@ =~= seq![',']);
        }
        if self.has_headers && headers.len() > 0 {
            let names = strings_as_chars(headers);
            document.add_metadata("columns", string_of(&join_chars(&names, &comma)).as_str());
        }
        match &self.extract_columns {
            Some(c) => {
                let names = strings_as_chars(c);
                document.add_metadata(
                    "extracted_columns",
                    string_of(&join_chars(&names, &comma)).as_str(),
                );
            },
            None => {},
        }
        Ok(document)
    }

    /// Loads a CSV file from its bytes. An error of the header row or of a
    /// record is reported with the message of the parser.
    pub fn load(&self, source: &str, bytes: &[u8]) -> (r: Result<Document, LoaderError>)
        ensures
            match headers_for(self@, bytes@) {
                Err(e) => r is Err && r->Err_0 is ParseError && r->Err_0->ParseError_0@ == e,
                Ok(headers) => {
                    let body = csv_body(bytes@, self.delimiter, self.has_headers);
                    match row_lines(body, selection(headers, self@.extract_columns), body.len()) {
                        Err(e) => r is Err && r->Err_0 is ParseError && r->Err_0->ParseError_0@ == e,
                        Ok(lines) => r is Ok && r->Ok_0@.source == source@ && r->Ok_0@.content
                            == join(lines, self.row_separator@) && r->Ok_0@.metadata == csv_metadata(
                            self@,
                            headers,
                            lines.len(),
                        ),
                    }
                },
            },
    {
        let headers: Vec<String> = if self.has_headers {
            match csv_headers(bytes, self.delimiter) {
                Ok(h) => h,
                Err(e) => {
                    return Err(LoaderError::ParseError(e));
                },
            }
        } else {
            let h: Vec<String> = Vec::new();
            assert(str_views(h@) =~= Seq::<Seq<char>>::empty());
            h
        };
        let records = csv_records(bytes, self.delimiter, self.has_headers);
        self.assemble(source, &headers, &records)
    }

    /// Holds the file size against the limit of the options, then loads.
    pub fn load_with_options(
        &self,
        source: &str,
        bytes: &[u8],
        file_size: usize,
        options: &LoaderOptions,
    ) -> (r: Result<Document, LoaderError>)
        ensures
            !size_ok(file_size, options.max_size) ==> r is Err && r->Err_0 == LoaderError::FileTooLarge(
                file_size,
                options.max_size->Some_0,
            ),
            size_ok(file_size, options.max_size) ==> match headers_for(self@, bytes@) {
                Err(e) => r is Err && r->Err_0 is ParseError && r->Err_0->ParseError_0@ == e,
                Ok(headers) => {
                    let body = csv_body(bytes@, self.delimiter, self.has_headers);
                    match row_lines(body, selection(headers, self@.extract_columns), body.len()) {
                        Err(e) => r is Err && r->Err_0 is ParseError && r->Err_0->ParseError_0@ == e,
                        Ok(lines) => r is Ok && r->Ok_0@.source == source@ && r->Ok_0@.content
                            == join(lines, self.row_separator@) && r->Ok_0@.metadata == csv_metadata(
                            self@,
                            headers,
                            lines.len(),
                        ),
                    }
                },
            },
    {
        match check_size(file_size, options) {
            Ok(_) => self.load(source, bytes),
            Err(e) => Err(e),
        }
    }

    /// `CsvLoader`.
    pub fn name(&self) -> (n: &'static str)
        ensures
            n@ == "CsvLoader"@,
    {
        "CsvLoader"
    }

    /// `csv`, `tsv`.
    pub fn supported_extensions(&self) -> (e: Vec<&'static str>)
        ensures
            e@.len() == 2,
            e@[0]@ == "csv"@,
            e@[1]@ == "tsv"@,
    {
        vec!["csv", "tsv"]
    }
}

} // verus!
