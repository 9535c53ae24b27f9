//! Reader for two-dimensional arrays of little-endian 16-bit words in the
//! `.npy` format, in row-major order.

use vstd::prelude::*;
use vstd::utf8::*;

use crate::chars::{copy_range, find, to_chars, to_text, trim_bounds};
use crate::chars::{first_at, lemma_position, occurs, occurs_at, position, trimmed};
use crate::digits::{all_digits, decimal, is_digit, parse_usize, parsed_usize};
use crate::digits::{law_decimal_reads_back, law_parse_usize_of_decimal};
use crate::grid::{rows_of, table_shape, WordGrid};

verus! {

/// Why bytes are not such an array; `H` is the form of the header and `S` that
/// of the shape that an error carries.
#[derive(Debug)]
pub enum NpyFault<H, S> {
    /// The bytes end too early.
    Truncated,
    /// The magic bytes are missing.
    NotNpy,
    /// The header names another element type.
    NotU16(H),
    /// The header has no shape entry.
    NoShape,
    /// The shape entry has no opening parenthesis.
    NoShapeTuple,
    /// The shape entry has no closing parenthesis.
    UnterminatedShapeTuple,
    /// A closing parenthesis stands before the opening one.
    MisplacedParenthesis,
    /// A dimension is not a number.
    BadDimension,
    /// The array does not have two dimensions.
    NotTwoDimensional(S),
    /// No array can have that shape.
    TooLarge,
}

pub type NpyError = NpyFault<String, Vec<usize>>;

impl View for NpyFault<String, Vec<usize>> {
    type V = NpyFault<Seq<char>, Seq<usize>>;

    open spec fn view(&self) -> NpyFault<Seq<char>, Seq<usize>> {
        match *self {
            NpyFault::Truncated => NpyFault::Truncated,
            NpyFault::NotNpy => NpyFault::NotNpy,
            NpyFault::NotU16(h) => NpyFault::NotU16(h@),
            NpyFault::NoShape => NpyFault::NoShape,
            NpyFault::NoShapeTuple => NpyFault::NoShapeTuple,
            NpyFault::UnterminatedShapeTuple => NpyFault::UnterminatedShapeTuple,
            NpyFault::MisplacedParenthesis => NpyFault::MisplacedParenthesis,
            NpyFault::BadDimension => NpyFault::BadDimension,
            NpyFault::NotTwoDimensional(s) => NpyFault::NotTwoDimensional(s@),
            NpyFault::TooLarge => NpyFault::TooLarge,
        }
    }
}

pub type SpecNpyError = NpyFault<Seq<char>, Seq<usize>>;

/// The text between the commas of `s`.
pub open spec fn comma_fields(s: Seq<char>) -> Seq<Seq<char>>
    decreases s.len(),
{
    match position(s, seq![',']) {
        Some(k) => if 0 <= k < s.len() {
            seq![s.take(k)] + comma_fields(s.skip(k + 1))
        } else {
            seq![s]
        },
        None => seq![s],
    }
}

/// The numbers that `fields` stand for. Blank fields are skipped; any other
/// field that is no number spoils the whole.
pub open spec fn field_values(fields: Seq<Seq<char>>) -> Option<Seq<usize>>
    decreases fields.len(),
{
    if fields.len() == 0 {
        Some(Seq::empty())
    } else {
        let field = trimmed(fields[0]);
        let rest = field_values(fields.drop_first());
        if field.len() == 0 {
            rest
        } else {
            match (parsed_usize(field), rest) {
                (Some(d), Some(r)) => Some(seq![d] + r),
                _ => None,
            }
        }
    }
}

/// What follows the shape key in a header.
pub open spec fn after_shape_key(header: Seq<char>) -> Option<Seq<char>> {
    match position(header, "'shape':"@) {
        Some(k) => Some(header.skip(k + "'shape':"@.len())),
        None => None,
    }
}

/// The shape that a header states.
pub open spec fn header_shape(header: Seq<char>) -> Result<Seq<usize>, SpecNpyError> {
    match after_shape_key(header) {
        None => Err(NpyFault::NoShape),
        Some(rest) => match (position(rest, seq!['(']), position(rest, seq![')'])) {
            (None, _) => Err(NpyFault::NoShapeTuple),
            (_, None) => Err(NpyFault::UnterminatedShapeTuple),
            (Some(open), Some(close)) => if close < open {
                Err(NpyFault::MisplacedParenthesis)
            } else {
                match field_values(comma_fields(rest.subrange(open + 1, close))) {
                    Some(dims) => Ok(dims),
                    None => Err(NpyFault::BadDimension),
                }
            },
        },
    }
}

pub open spec fn shape_view(r: Result<Vec<usize>, NpyError>) -> Result<Seq<usize>, SpecNpyError> {
    match r {
        Ok(v) => Ok(v@),
        Err(e) => Err(e@),
    }
}

/// `front` put before the values, if there are any.
spec fn prepend(front: Seq<usize>, values: Option<Seq<usize>>) -> Option<Seq<usize>> {
    match values {
        Some(v) => Some(front + v),
        None => None,
    }
}

fn single(c: char) -> (r: Vec<char>)
    ensures
        r@ == seq![c],
{
    let mut v: Vec<char> = Vec::new();
    v.push(c);
    assert(v@ =~= seq![c]);
    v
}

/// The numbers between the commas of `inner`.
fn parse_fields(inner: &[char]) -> (r: Option<Vec<usize>>)
    ensures
        match r {
            Some(v) => field_values(comma_fields(inner@)) == Some(v@),
            None => field_values(comma_fields(inner@)) is None,
        },
{
    let comma = single(',');
    let mut dims: Vec<usize> = Vec::new();
    let mut rest: Vec<char> = copy_range(inner, 0, inner.len());
    let ghost whole = field_values(comma_fields(inner@));
    proof {
        assert(rest@ =~= inner@);
        assert(whole == prepend(dims@, field_values(comma_fields(rest@)))) by {
            match whole {
                Some(v) => {
                    assert(dims@ + v =~= v);
                },
                None => {},
            }
        }
    }
    loop
        invariant
            comma@ == seq![','],
            whole == field_values(comma_fields(inner@)),
            whole == prepend(dims@, field_values(comma_fields(rest@))),
        decreases rest@.len(),
    {
        let found = find(&rest, &comma);
        let end: usize = match found {
            Some(k) => k,
            None => rest.len(),
        };
        proof {
            assert(found is Some ==> end < rest@.len());
        }
        let field = copy_range(&rest, 0, end);
        let bounds = trim_bounds(&field);
        let word = copy_range(&field, bounds.0, bounds.1);
        let ghost fields = comma_fields(rest@);
        proof {
            assert(field@ =~= rest@.take(end as int));
            assert(found is None ==> field@ =~= rest@);
            assert(fields[0] == field@);
            assert(found is None ==> fields.drop_first() =~= Seq::<Seq<char>>::empty());
            assert(found is Some ==> fields.drop_first() =~= comma_fields(rest@.skip(end + 1)));
        }
        if word.len() > 0 {
            match parse_usize(&word) {
                Some(d) => {
                    let ghost before = dims@;
                    dims.push(d);
                    proof {
                        match field_values(fields.drop_first()) {
                            Some(v) => {
                                assert(before + (seq![d] + v) =~= dims@ + v);
                            },
                            None => {},
                        }
                    }
                },
                None => {
                    return None;
                },
            }
        }
        assert(whole == prepend(dims@, field_values(fields.drop_first())));
        if found.is_none() {
            proof {
                assert(field_values(fields.drop_first()) == Some(Seq::<usize>::empty()));
                assert(dims@ + Seq::<usize>::empty() =~= dims@);
            }
            return Some(dims);
        }
        let total: usize = rest.len();
        let next = copy_range(&rest, end + 1, total);
        proof {
            assert(next@ =~= rest@.skip(end + 1));
        }
        rest = next;
    }
}

fn shape_of(header: &str) -> (r: Result<Vec<usize>, NpyError>)
    ensures
        shape_view(r) == header_shape(header@),
{
    let text = to_chars(header);
    let key = to_chars("'shape':");
    let start: usize = match find(&text, &key) {
        Some(k) => k,
        None => {
            return Err(NpyFault::NoShape);
        },
    };
    let total: usize = text.len();
    let rest = copy_range(&text, start + key.len(), total);
    proof {
        assert(rest@ =~= header@.skip(start + "'shape':"@.len()));
    }
    let open_mark = single('(');
    let close_mark = single(')');
    let open_at: usize = match find(&rest, &open_mark) {
        Some(k) => k,
        None => {
            return Err(NpyFault::NoShapeTuple);
        },
    };
    let close_at: usize = match find(&rest, &close_mark) {
        Some(k) => k,
        None => {
            return Err(NpyFault::UnterminatedShapeTuple);
        },
    };
    if close_at < open_at {
        return Err(NpyFault::MisplacedParenthesis);
    }
    proof {
        assert(rest@.subrange(open_at as int, open_at + 1)[0] == rest@[open_at as int]);
        assert(rest@.subrange(close_at as int, close_at + 1)[0] == rest@[close_at as int]);
        assert(open_at != close_at);
    }
    let inner = copy_range(&rest, open_at + 1, close_at);
    match parse_fields(&inner) {
        Some(dims) => Ok(dims),
        None => Err(NpyFault::BadDimension),
    }
}

/// The shape that a header states. A header with the parentheses of its shape
/// in the wrong order is not for this function.
pub fn parse_shape(header: &str) -> (r: Result<Vec<usize>, NpyError>)
    requires
        !(header_shape(header@) matches Err(NpyFault::MisplacedParenthesis)),
    ensures
        shape_view(r) == header_shape(header@),
{
    shape_of(header)
}

/// The magic bytes at the start of a file.
pub open spec fn magic() -> Seq<u8> {
    seq![0x93u8, 0x4eu8, 0x55u8, 0x4du8, 0x50u8, 0x59u8]
}

/// The value of `count` little-endian bytes of `bytes` from `at` on.
pub open spec fn little_endian(bytes: Seq<u8>, at: int, count: nat) -> nat
    decreases count,
{
    if count == 0 {
        0
    } else {
        bytes[at] as nat + 256 * little_endian(bytes, at + 1, (count - 1) as nat)
    }
}

/// Where the header starts and where it ends.
pub open spec fn header_span(bytes: Seq<u8>) -> Result<(int, int), SpecNpyError> {
    if bytes.len() < 6 {
        Err(NpyFault::Truncated)
    } else if bytes.take(6) != magic() {
        Err(NpyFault::NotNpy)
    } else if bytes.len() < 8 {
        Err(NpyFault::Truncated)
    } else {
        let count: nat = if bytes[6] == 1 {
            2
        } else {
            4
        };
        let start: int = 8int + count;
        let end: int = start + little_endian(bytes, 8, count);
        if bytes.len() < start || bytes.len() < end {
            Err(NpyFault::Truncated)
        } else {
            Ok((start, end))
        }
    }
}

/// The number of rows and of columns that a header states.
pub open spec fn header_sides(header: Seq<char>) -> Result<(usize, usize), SpecNpyError> {
    if !occurs(header, "'<u2'"@) && !occurs(header, "uint16"@) {
        Err(NpyFault::NotU16(header))
    } else {
        match header_shape(header) {
            Err(e) => Err(e),
            Ok(shape) => if shape.len() != 2 {
                Err(NpyFault::NotTwoDimensional(shape))
            } else {
                Ok((shape[0], shape[1]))
            },
        }
    }
}

/// The `count` little-endian words of `bytes` from `at` on.
pub open spec fn words_at(bytes: Seq<u8>, at: int, count: nat) -> Seq<u16> {
    Seq::new(count, |i: int| little_endian(bytes, at + 2 * i, 2) as u16)
}

/// The table of `rows` by `cols` words of `bytes` from `at` on.
pub open spec fn table_at(bytes: Seq<u8>, at: int, rows: usize, cols: usize) -> Result<
    Seq<Seq<u16>>,
    SpecNpyError,
> {
    let cells: nat = (rows * cols) as nat;
    if cells * 2 > usize::MAX || (cells == 0 && (rows > isize::MAX || cols > isize::MAX)) {
        Err(NpyFault::TooLarge)
    } else if bytes.len() < at + cells * 2 {
        Err(NpyFault::Truncated)
    } else {
        Ok(rows_of(words_at(bytes, at, cells), rows as nat, cols as nat))
    }
}

/// What `bytes` hold, where `header` is the text of their header.
pub open spec fn npy_table(bytes: Seq<u8>, header: Seq<char>) -> Result<
    (Seq<Seq<u16>>, nat),
    SpecNpyError,
> {
    match header_span(bytes) {
        Err(e) => Err(e),
        Ok((_, end)) => match header_sides(header) {
            Err(e) => Err(e),
            Ok((rows, cols)) => match table_at(bytes, end, rows, cols) {
                Err(e) => Err(e),
                Ok(table) => Ok((table, cols as nat)),
            },
        },
    }
}

/// The bytes of the header.
pub open spec fn header_bytes(bytes: Seq<u8>) -> Seq<u8> {
    match header_span(bytes) {
        Ok((start, end)) => bytes.subrange(start, end),
        Err(_) => Seq::empty(),
    }
}

pub open spec fn grid_view(r: Result<WordGrid, NpyError>) -> Result<
    (Seq<Seq<u16>>, nat),
    SpecNpyError,
> {
    match r {
        Ok(g) => Ok((g.rows(), g.width())),
        Err(e) => Err(e@),
    }
}

/// The text that bytes stand for when every fault in their encoding is
/// replaced.
pub uninterp spec fn utf8_lossy(bytes: Seq<u8>) -> Seq<char>;

/// `String::from_utf8_lossy` gives the text of `bytes`, with replacement
/// characters where they are not valid UTF-8; valid bytes are decoded as they
/// are.
#[verifier::external_body]
fn lossy_text(bytes: &[u8]) -> (r: String)
    ensures
        r@ == utf8_lossy(bytes@),
        valid_utf8(bytes@) ==> r@ == decode_utf8(bytes@),
{
    String::from_utf8_lossy(bytes).into_owned()
}

/// Where the header of `bytes` starts and where it ends.
pub fn locate_header(bytes: &[u8]) -> (r: Result<(usize, usize), NpyError>)
    ensures
        match r {
            Ok((start, end)) => header_span(bytes@) == Ok::<_, SpecNpyError>(
                (start as int, end as int),
            ) && start <= end <= bytes@.len(),
            Err(e) => header_span(bytes@) == Err::<(int, int), _>(e@),
        },
{
    let total: usize = bytes.len();
    if total < 6 {
        return Err(NpyFault::Truncated);
    }
    if !(bytes[0] == 0x93 && bytes[1] == 0x4e && bytes[2] == 0x55 && bytes[3] == 0x4d && bytes[4]
        == 0x50 && bytes[5] == 0x59) {
        proof {
            assert(bytes@.take(6) != magic()) by {
                if bytes@.take(6) == magic() {
                    let t = bytes@.take(6);
                    assert(t[0] == bytes@[0] && t[1] == bytes@[1] && t[2] == bytes@[2] && t[3]
                        == bytes@[3] && t[4] == bytes@[4] && t[5] == bytes@[5]);
                }
            }
        }
        return Err(NpyFault::NotNpy);
    }
    proof {
        assert(bytes@.take(6) =~= magic());
        reveal_with_fuel(little_endian, 5);
    }
    if total < 8 {
        return Err(NpyFault::Truncated);
    }
    if bytes[6] == 1 {
        if total < 10 {
            return Err(NpyFault::Truncated);
        }
        let len: usize = bytes[8] as usize + 256 * (bytes[9] as usize);
        if total - 10 < len {
            return Err(NpyFault::Truncated);
        }
        Ok((10, 10 + len))
    } else {
        if total < 12 {
            return Err(NpyFault::Truncated);
        }
        let len: usize = bytes[8] as usize + 256 * (bytes[9] as usize) + 65536 * (
        bytes[10] as usize) + 16777216 * (bytes[11] as usize);
        if total - 12 < len {
            return Err(NpyFault::Truncated);
        }
        Ok((12, 12 + len))
    }
}

/// The number of rows and of columns that a header states for an array of
/// unsigned 16-bit words.
pub fn header_table(header: &str) -> (r: Result<(usize, usize), NpyError>)
    ensures
        match r {
            Ok(sides) => header_sides(header@) == Ok::<_, SpecNpyError>(sides),
            Err(e) => header_sides(header@) == Err::<(usize, usize), _>(e@),
        },
{
    let text = to_chars(header);
    let short = to_chars("'<u2'");
    let long = to_chars("uint16");
    if find(&text, &short).is_none() && find(&text, &long).is_none() {
        return Err(NpyFault::NotU16(to_text(&text)));
    }
    match shape_of(header) {
        Err(e) => Err(e),
        Ok(shape) => {
            if shape.len() != 2 {
                return Err(NpyFault::NotTwoDimensional(shape));
            }
            Ok((shape[0], shape[1]))
        },
    }
}

/// The table of `rows` by `cols` words of `bytes` from `at` on. Bytes after the
/// last word are not looked at.
pub fn read_table(bytes: &[u8], at: usize, rows: usize, cols: usize) -> (r: Result<
    WordGrid,
    NpyError,
>)
    requires
        at <= bytes@.len(),
    ensures
        match r {
            Ok(g) => table_at(bytes@, at as int, rows, cols) == Ok::<_, SpecNpyError>(g.rows())
                && g.width() == cols,
            Err(e) => table_at(bytes@, at as int, rows, cols) == Err::<Seq<Seq<u16>>, _>(e@),
        },
{
    let total: usize = bytes.len();
    let cells: usize = match rows.checked_mul(cols) {
        Some(cells) => cells,
        None => {
            return Err(NpyFault::TooLarge);
        },
    };
    let size: usize = match cells.checked_mul(2) {
        Some(size) => size,
        None => {
            return Err(NpyFault::TooLarge);
        },
    };
    if total - at < size && cells > 0 {
        return Err(NpyFault::Truncated);
    }
    let mut words: Vec<u16> = Vec::new();
    for i in 0..cells
        invariant
            total == bytes@.len(),
            at <= total,
            size == cells * 2,
            cells == 0 || total - at >= size,
            words@ == words_at(bytes@, at as int, i as nat),
    {
        let low: u8 = bytes[at + 2 * i];
        let high: u8 = bytes[at + 2 * i + 1];
        words.push(low as u16 + 256 * (high as u16));
        proof {
            reveal_with_fuel(little_endian, 3);
            assert(words@ =~= words_at(bytes@, at as int, (i + 1) as nat));
        }
    }
    match WordGrid::from_cells(rows, cols, words) {
        Some(g) => Ok(g),
        None => Err(NpyFault::TooLarge),
    }
}

/// The array that `bytes` hold.
pub fn read_npy_u16_2d(bytes: &[u8]) -> (r: Result<WordGrid, NpyError>)
    ensures
        grid_view(r) == npy_table(bytes@, utf8_lossy(header_bytes(bytes@))),
        valid_utf8(header_bytes(bytes@)) ==> grid_view(r) == npy_table(
            bytes@,
            decode_utf8(header_bytes(bytes@)),
        ),
{
    let span = match locate_header(bytes) {
        Ok(span) => span,
        Err(e) => {
            return Err(e);
        },
    };
    let part = copy_range(bytes, span.0, span.1);
    let header = lossy_text(&part);
    match header_table(&header) {
        Err(e) => Err(e),
        Ok((rows, cols)) => read_table(bytes, span.1, rows, cols),
    }
}

/// Numbers with commas between them.
pub open spec fn joined_dims(dims: Seq<usize>) -> Seq<char>
    decreases dims.len(),
{
    if dims.len() == 0 {
        Seq::empty()
    } else if dims.len() == 1 {
        decimal(dims[0] as nat)
    } else {
        decimal(dims[0] as nat) + (", "@ + joined_dims(dims.drop_first()))
    }
}

/// A shape as it is written between its parentheses: a lone dimension has a
/// comma behind it.
pub open spec fn shape_text(dims: Seq<usize>) -> Seq<char> {
    if dims.len() == 1 {
        joined_dims(dims) + seq![',']
    } else {
        joined_dims(dims)
    }
}

/// The header of a stored array of unsigned 16-bit words; `tail` is what pads
/// it.
pub open spec fn stored_header(dims: Seq<usize>, tail: Seq<char>) -> Seq<char> {
    "{'descr': '<u2', 'fortran_order': False, 'shape':"@ + (" ("@ + (shape_text(dims) + ("), }"@
        + tail)))
}

/// The two little-endian bytes of each word, one word after the other.
pub open spec fn stored_words(words: Seq<u16>) -> Seq<u8> {
    Seq::new(
        2 * words.len(),
        |i: int|
            if i % 2 == 0 {
                (words[i / 2] as int % 256) as u8
            } else {
                (words[i / 2] as int / 256) as u8
            },
    )
}

/// The bytes in which a version of the format states a length: two in the first
/// version, four in the others.
pub open spec fn length_bytes(major: u8, n: int) -> Seq<u8> {
    if major == 1 {
        seq![(n % 256) as u8, (n / 256) as u8]
    } else {
        seq![
            (n % 256) as u8,
            (n / 256 % 256) as u8,
            (n / 65536 % 256) as u8,
            (n / 16777216) as u8,
        ]
    }
}

/// A stored array in a version of the format: `header`, then the cells row after
/// row.
pub open spec fn stored(major: u8, minor: u8, header: Seq<u8>, cells: Seq<u16>) -> Seq<u8> {
    magic() + seq![major, minor] + length_bytes(major, header.len() as int) + header + stored_words(
        cells,
    )
}

proof fn lemma_trim_nothing(s: Seq<char>)
    requires
        all_digits(s),
    ensures
        trimmed(s) == s,
        trimmed(seq![' '] + s) == s,
{
    let t = seq![' '] + s;
    assert(t.drop_first() =~= s);
    if s.len() > 0 {
        assert(is_digit(s[0]));
        assert(is_digit(s.last()));
    }
}

/// The characters of a shape.
spec fn shape_char(c: char) -> bool {
    is_digit(c) || c == ',' || c == ' '
}

proof fn lemma_shape_chars(dims: Seq<usize>)
    ensures
        forall|i: int| 0 <= i < joined_dims(dims).len() ==> shape_char(#[trigger] joined_dims(dims)[i]),
    decreases dims.len(),
{
    reveal_strlit(", ");
    if dims.len() > 0 {
        let d = decimal(dims[0] as nat);
        law_decimal_reads_back(dims[0] as nat);
        assert(forall|i: int| 0 <= i < d.len() ==> is_digit(#[trigger] d[i]));
        if dims.len() > 1 {
            let rest = dims.drop_first();
            lemma_shape_chars(rest);
            let s = joined_dims(dims);
            assert forall|i: int| 0 <= i < s.len() implies shape_char(#[trigger] s[i]) by {
                if i < d.len() {
                    assert(s[i] == d[i]);
                } else if i >= d.len() + 2 {
                    assert(s[i] == joined_dims(rest)[i - d.len() - 2]);
                } else {
                    assert(s[i] == ", "@[i - d.len()]);
                }
            }
        }
    }
}

/// Numbers with commas between them are read as those numbers, with or without a
/// blank or a last comma around them.
proof fn lemma_dims_read_back(lead: Seq<char>, dims: Seq<usize>, behind: Seq<char>)
    requires
        lead.len() == 0 || lead == seq![' '],
        behind.len() == 0 || behind == seq![','],
        dims.len() > 0,
    ensures
        field_values(comma_fields(lead + joined_dims(dims) + behind)) == Some(dims),
    decreases dims.len(),
{
    reveal_strlit(", ");
    let comma = seq![','];
    let d = decimal(dims[0] as nat);
    law_decimal_reads_back(dims[0] as nat);
    law_parse_usize_of_decimal(dims[0]);
    lemma_trim_nothing(d);
    let first = lead + d;
    assert(lead.len() == 0 ==> first =~= d);
    assert(trimmed(first) == d);
    let s = lead + joined_dims(dims) + behind;
    let at = first.len() as int;
    assert forall|k: int| 0 <= k < at implies s[k] != ',' by {
        assert(s[k] == first[k]);
        if k >= lead.len() {
            assert(is_digit(d[k - lead.len()]));
        }
    }
    assert forall|k: int| 0 <= k < at implies !#[trigger] occurs_at(s, comma, k) by {
        if occurs_at(s, comma, k) {
            assert(s.subrange(k, k + 1)[0] == s[k]);
        }
    }
    if dims.len() == 1 && behind.len() == 0 {
        assert(s =~= first);
        assert forall|k: int| !occurs_at(s, comma, k) by {
            if occurs_at(s, comma, k) {
                assert(s.subrange(k, k + 1)[0] == s[k]);
            }
        }
        lemma_position(s, comma);
        let fields = comma_fields(s);
        assert(fields =~= seq![first]);
        assert(fields.drop_first() =~= Seq::<Seq<char>>::empty());
        assert(field_values(fields.drop_first()) == Some(Seq::<usize>::empty()));
        assert(seq![dims[0]] + Seq::<usize>::empty() =~= dims);
    } else {
        assert(first_at(s, comma, at)) by {
            assert(s[at] == ',');
            assert(s.subrange(at, at + 1) =~= comma);
        }
        lemma_position(s, comma);
        assert(s.take(at) =~= first);
        let rest = s.skip(at + 1);
        let fields = comma_fields(s);
        assert(fields == seq![first] + comma_fields(rest));
        assert(fields.drop_first() =~= comma_fields(rest));
        if dims.len() == 1 {
            assert(rest =~= Seq::<char>::empty());
            assert forall|k: int| !occurs_at(rest, comma, k) by {
                if occurs_at(rest, comma, k) {
                    assert(rest.subrange(k, k + 1).len() == 1);
                }
            }
            lemma_position(rest, comma);
            let last = comma_fields(rest);
            assert(last =~= seq![rest]);
            assert(last.drop_first() =~= Seq::<Seq<char>>::empty());
            assert(field_values(last.drop_first()) == Some(Seq::<usize>::empty()));
            assert(trimmed(rest).len() == 0);
            assert(field_values(last) == Some(Seq::<usize>::empty()));
            assert(seq![dims[0]] + Seq::<usize>::empty() =~= dims);
        } else {
            let more = dims.drop_first();
            lemma_dims_read_back(seq![' '], more, behind);
            assert(rest =~= seq![' '] + joined_dims(more) + behind);
            assert(seq![dims[0]] + more =~= dims);
        }
    }
}

/// A shape of any number of dimensions that a header states is read back; only
/// one of two dimensions is that of a table.
pub proof fn law_stored_header_reads_back(dims: Seq<usize>, tail: Seq<char>)
    ensures
        header_shape(stored_header(dims, tail)) == Ok::<_, SpecNpyError>(dims),
        header_sides(stored_header(dims, tail)) == if dims.len() == 2 {
            Ok::<_, SpecNpyError>((dims[0], dims[1]))
        } else {
            Err(NpyFault::NotTwoDimensional(dims))
        },
{
    let h = stored_header(dims, tail);
    let front = "{'descr': '<u2', 'fortran_order': False, 'shape':"@;
    let key = "'shape':"@;
    let text = shape_text(dims);
    reveal_strlit("{'descr': '<u2', 'fortran_order': False, 'shape':");
    reveal_strlit("'shape':");
    reveal_strlit("'<u2'");
    reveal_strlit(" (");
    reveal_strlit("), }");
    assert(occurs_at(h, "'<u2'"@, 10)) by {
        assert(h.subrange(10, 15) =~= "'<u2'"@);
    }
    assert(first_at(h, key, 41)) by {
        assert(h.subrange(41, 49) =~= key);
        assert forall|k: int| 0 <= k < 41 implies !#[trigger] occurs_at(h, key, k) by {
            assert(h[k] == front[k] && h[k + 1] == front[k + 1]);
            assert(h.subrange(k, k + 8)[0] == h[k]);
            assert(h.subrange(k, k + 8)[1] == h[k + 1]);
            assert(!(front[k] == '\'' && front[k + 1] == 's'));
        }
    }
    lemma_position(h, key);
    let rest = h.skip(49);
    assert(rest =~= " ("@ + (text + ("), }"@ + tail)));
    let open_at = 1int;
    let close_at = 2int + text.len();
    lemma_shape_chars(dims);
    assert(forall|i: int| 0 <= i < text.len() ==> shape_char(#[trigger] text[i]));
    assert(first_at(rest, seq!['('], open_at)) by {
        assert(rest.subrange(1, 2) =~= seq!['(']);
        assert(rest.subrange(0, 1)[0] == ' ');
    }
    lemma_position(rest, seq!['(']);
    assert(first_at(rest, seq![')'], close_at)) by {
        assert(rest.subrange(close_at, close_at + 1) =~= seq![')']);
        assert forall|k: int| 0 <= k < close_at implies !#[trigger] occurs_at(
            rest,
            seq![')'],
            k,
        ) by {
            assert(rest.subrange(k, k + 1)[0] == rest[k]);
            if 2 <= k {
                assert(rest[k] == text[k - 2]);
            }
        }
    }
    lemma_position(rest, seq![')']);
    let inner = rest.subrange(open_at + 1, close_at);
    assert(inner =~= text);
    let none = Seq::<char>::empty();
    if dims.len() == 0 {
        let comma = seq![','];
        assert(inner =~= none);
        assert forall|k: int| !occurs_at(inner, comma, k) by {
            if occurs_at(inner, comma, k) {
                assert(inner.subrange(k, k + 1).len() == 1);
            }
        }
        lemma_position(inner, comma);
        let fields = comma_fields(inner);
        assert(fields =~= seq![inner]);
        assert(fields.drop_first() =~= Seq::<Seq<char>>::empty());
        assert(field_values(fields.drop_first()) == Some(Seq::<usize>::empty()));
        assert(trimmed(inner).len() == 0);
        assert(dims =~= Seq::<usize>::empty());
    } else if dims.len() == 1 {
        lemma_dims_read_back(none, dims, seq![',']);
        assert(none + joined_dims(dims) + seq![','] =~= text);
    } else {
        lemma_dims_read_back(none, dims, none);
        assert(none + joined_dims(dims) + none =~= text);
    }
}

/// Reading gives back what was stored, in every version of the format and
/// whatever follows it: bytes that hold `cells` in `rows` rows of `cols` behind
/// a header with that shape are read as that table.
pub proof fn law_stored_array_reads_back(
    major: u8,
    minor: u8,
    rows: usize,
    cols: usize,
    cells: Seq<u16>,
    tail: Seq<char>,
    header: Seq<u8>,
    trailing: Seq<u8>,
)
    requires
        table_shape(rows as nat, cols as nat, cells.len()),
        cells.len() * 2 <= usize::MAX,
        header == encode_utf8(stored_header(seq![rows, cols], tail)),
        header.len() < if major == 1 {
            0x1_0000int
        } else {
            0x1_0000_0000int
        },
    ensures
        ({
            let bytes = stored(major, minor, header, cells) + trailing;
            &&& header_bytes(bytes) == header
            &&& valid_utf8(header)
            &&& npy_table(bytes, decode_utf8(header)) == Ok::<_, SpecNpyError>(
                (rows_of(cells, rows as nat, cols as nat), cols as nat),
            )
        }),
{
    let bytes = stored(major, minor, header, cells) + trailing;
    let n = header.len() as int;
    let count: nat = if major == 1 {
        2
    } else {
        4
    };
    let lengths = length_bytes(major, n);
    assert(lengths.len() == count);
    let start: int = 8int + count;
    let end: int = start + n;
    let dims = seq![rows, cols];
    assert(bytes.take(6) =~= magic());
    assert(bytes[6] == major);
    assert(little_endian(bytes, 8, count) == n) by {
        reveal_with_fuel(little_endian, 5);
        assert(bytes[8] == lengths[0] && bytes[9] == lengths[1]);
        if major != 1 {
            assert(bytes[10] == lengths[2] && bytes[11] == lengths[3]);
        }
    }
    assert(bytes.subrange(start, end) =~= header);
    encode_utf8_valid_utf8(stored_header(dims, tail));
    encode_utf8_decode_utf8(stored_header(dims, tail));
    law_stored_header_reads_back(dims, tail);
    assert(words_at(bytes, end, cells.len()) =~= cells) by {
        reveal_with_fuel(little_endian, 3);
        assert forall|i: int| 0 <= i < cells.len() implies #[trigger] words_at(
            bytes,
            end,
            cells.len(),
        )[i] == cells[i] by {
            assert(bytes[end + 2 * i] == stored_words(cells)[2 * i]);
            assert(bytes[end + 2 * i + 1] == stored_words(cells)[2 * i + 1]);
        }
    }
}

/// The header lies behind the magic bytes, the version and the length, which has
/// two bytes in the first version and four in all others. Other magic bytes make
/// another kind of file, and bytes that end too early are refused.
pub proof fn law_header_lies_behind_its_length(bytes: &[u8], r: Result<(usize, usize), NpyError>)
    requires
        call_ensures(locate_header, (bytes,), r),
    ensures
        ({
            let b = bytes@;
            let named = b.len() >= 6 && b[0] == 0x93 && b[1] == 0x4e && b[2] == 0x55 && b[3] == 0x4d
                && b[4] == 0x50 && b[5] == 0x59;
            let short: int = 10 + b[8] + 256 * b[9];
            let long: int = 12 + b[8] + 256 * b[9] + 65536 * b[10] + 16777216 * b[11];
            &&& b.len() >= 6 && !named ==> r is Err && r->Err_0@ == NpyFault::<
                Seq<char>,
                Seq<usize>,
            >::NotNpy
            &&& named && b.len() >= 10 && b[6] == 1 && short <= b.len() ==> r is Ok && r->Ok_0.0
                == 10 && r->Ok_0.1 == short
            &&& named && b.len() >= 12 && b[6] != 1 && long <= b.len() ==> r is Ok && r->Ok_0.0
                == 12 && r->Ok_0.1 == long
            &&& r is Ok ==> named && r->Ok_0.1 <= b.len()
            &&& r is Ok ==> r->Ok_0.0 == 10 && b[6] == 1 && r->Ok_0.1 == short || r->Ok_0.0 == 12
                && b[6] != 1 && r->Ok_0.1 == long
        }),
{
    let b = bytes@;
    reveal_with_fuel(little_endian, 5);
    if b.len() >= 6 {
        let t = b.take(6);
        assert(t[0] == b[0] && t[1] == b[1] && t[2] == b[2] && t[3] == b[3] && t[4] == b[4] && t[5]
            == b[5]);
        if b[0] == 0x93 && b[1] == 0x4e && b[2] == 0x55 && b[3] == 0x4d && b[4] == 0x50 && b[5]
            == 0x59 {
            assert(t =~= magic());
        } else {
            assert(t != magic()) by {
                if t == magic() {
                    assert(magic()[0] == 0x93 && magic()[1] == 0x4e && magic()[2] == 0x55
                        && magic()[3] == 0x4d && magic()[4] == 0x50 && magic()[5] == 0x59);
                }
            }
        }
    }
}

/// A table is read row by row, two bytes to a word, the lower one first.
pub proof fn law_words_are_read_row_by_row(
    bytes: &[u8],
    at: usize,
    rows: usize,
    cols: usize,
    r: Result<WordGrid, NpyError>,
    i: int,
    j: int,
)
    requires
        call_ensures(read_table, (bytes, at, rows, cols), r),
        0 <= i < rows,
        0 <= j < cols,
        at <= bytes@.len(),
    ensures
        r is Ok <==> 2 * (rows * cols) <= usize::MAX && at + 2 * (rows * cols) <= bytes@.len(),
        r matches Ok(g) ==> {
            let k = at + 2 * (i * cols + j);
            &&& g.rows().len() == rows
            &&& g.width() == cols
            &&& g.rows()[i].len() == cols
            &&& g.rows()[i][j] == bytes@[k] + 256 * bytes@[k + 1]
        },
{
    reveal_with_fuel(little_endian, 3);
    let cells: nat = (rows * cols) as nat;
    assert(cells > 0) by (nonlinear_arith)
        requires
            cells == rows * cols,
            rows >= 1,
            cols >= 1,
    ;
    if r is Ok {
        let words = words_at(bytes@, at as int, cells);
        crate::grid::law_cells_fill_rows(words, rows as nat, cols as nat, i, j);
    }
}

/// An array that was stored, in any version of the format, is read back cell by
/// cell, whatever follows it in the file.
pub proof fn law_files_are_read_back(
    bytes: &[u8],
    r: Result<WordGrid, NpyError>,
    major: u8,
    minor: u8,
    rows: usize,
    cols: usize,
    cells: Seq<u16>,
    tail: Seq<char>,
    trailing: Seq<u8>,
    i: int,
    j: int,
)
    requires
        call_ensures(read_npy_u16_2d, (bytes,), r),
        table_shape(rows as nat, cols as nat, cells.len()),
        cells.len() * 2 <= usize::MAX,
        encode_utf8(stored_header(seq![rows, cols], tail)).len() < if major == 1 {
            0x1_0000int
        } else {
            0x1_0000_0000int
        },
        bytes@ == stored(
            major,
            minor,
            encode_utf8(stored_header(seq![rows, cols], tail)),
            cells,
        ) + trailing,
        0 <= i < rows,
        0 <= j < cols,
    ensures
        r is Ok,
        r->Ok_0.rows().len() == rows,
        r->Ok_0.width() == cols,
        r->Ok_0.rows()[i][j] == cells[i * cols + j],
{
    let header = encode_utf8(stored_header(seq![rows, cols], tail));
    law_stored_array_reads_back(major, minor, rows, cols, cells, tail, header, trailing);
    crate::grid::law_cells_fill_rows(cells, rows as nat, cols as nat, i, j);
}

/// A header is that of a table of words where it names the type in one of its two
/// ways and its shape has two dimensions; the shape is looked at only then.
pub proof fn law_headers_name_their_type(
    header: &str,
    r: Result<(usize, usize), NpyError>,
    s: Result<Vec<usize>, NpyError>,
)
    requires
        call_ensures(header_table, (header,), r),
        call_ensures(parse_shape, (header,), s),
    ensures
        ({
            let typed = (exists|at: int| occurs_at(header@, "'<u2'"@, at)) || (exists|at: int|
                occurs_at(header@, "uint16"@, at));
            &&& !typed ==> r is Err && r->Err_0@ == NpyFault::<Seq<char>, Seq<usize>>::NotU16(
                header@,
            )
            &&& typed && s is Ok && s->Ok_0@.len() == 2 ==> r is Ok && r->Ok_0.0 == s->Ok_0@[0]
                && r->Ok_0.1 == s->Ok_0@[1]
            &&& typed && s is Ok && s->Ok_0@.len() != 2 ==> r is Err && r->Err_0@ == NpyFault::<
                Seq<char>,
                Seq<usize>,
            >::NotTwoDimensional(s->Ok_0@)
            &&& typed && s is Err ==> r is Err && r->Err_0@ == s->Err_0@
        }),
{
}

/// The dimensions of a shape stand between commas, with white space around them
/// or not; what is blank between commas counts for nothing, and what is no number
/// spoils the whole.
pub proof fn law_dimensions_stand_between_commas(
    w: Seq<char>,
    a: Seq<char>,
    v: Seq<char>,
    rest: Seq<char>,
)
    requires
        forall|i: int| 0 <= i < w.len() ==> crate::chars::white_space(#[trigger] w[i]),
        forall|i: int| 0 <= i < v.len() ==> crate::chars::white_space(#[trigger] v[i]),
        forall|i: int| 0 <= i < a.len() ==> #[trigger] a[i] != ',',
        a.len() > 0 ==> !crate::chars::white_space(a[0]) && !crate::chars::white_space(a.last()),
    ensures
        ({
            let all = field_values(comma_fields(w + a + v + seq![','] + rest));
            let others = field_values(comma_fields(rest));
            &&& a.len() == 0 ==> all == others
            &&& a.len() > 0 && parsed_usize(a) is None ==> all is None
            &&& a.len() > 0 && others is None ==> all is None
            &&& a.len() > 0 && parsed_usize(a) is Some && others is Some ==> all == Some(
                seq![parsed_usize(a).unwrap()] + others.unwrap(),
            )
        }),
{
    let field = w + a + v;
    let comma = seq![','];
    let s = field + comma + rest;
    let at = field.len() as int;
    assert forall|k: int| 0 <= k < at implies s[k] != ',' by {
        assert(s[k] == field[k]);
        if k < w.len() {
            assert(crate::chars::white_space(w[k]));
        } else if k < w.len() + a.len() {
            assert(a[k - w.len()] != ',');
        } else {
            assert(crate::chars::white_space(v[k - w.len() - a.len()]));
        }
    }
    assert(first_at(s, comma, at)) by {
        assert(s.subrange(at, at + 1) =~= comma);
        assert forall|k: int| 0 <= k < at implies !#[trigger] occurs_at(s, comma, k) by {
            assert(s.subrange(k, k + 1)[0] == s[k]);
        }
    }
    lemma_position(s, comma);
    assert(s.take(at) =~= field);
    assert(s.skip(at + 1) =~= rest);
    let fields = comma_fields(s);
    assert(fields[0] == field);
    assert(fields.drop_first() =~= comma_fields(rest));
    if a.len() > 0 {
        crate::chars::law_trimming_takes_the_outer_white_space(w, a, v);
    } else {
        assert(field =~= w + v);
        assert forall|i: int| 0 <= i < field.len() implies crate::chars::white_space(
            #[trigger] field[i],
        ) by {
            if i < w.len() {
                assert(field[i] == w[i]);
            } else {
                assert(field[i] == v[i - w.len()]);
            }
        }
        crate::chars::law_trimming_takes_the_outer_white_space(field, a, v);
    }
}

/// The shape is what stands between the first parentheses behind its key; each of
/// these that is missing is an error of its own.
pub proof fn law_shapes_stand_behind_their_key(
    front: Seq<char>,
    gap: Seq<char>,
    inner: Seq<char>,
    back: Seq<char>,
)
    requires
        forall|k: int|
            0 <= k < front.len() ==> !#[trigger] occurs_at(front + "'shape':"@, "'shape':"@, k),
        forall|k: int| 0 <= k < gap.len() ==> #[trigger] gap[k] != '(' && gap[k] != ')',
        forall|k: int| 0 <= k < inner.len() ==> #[trigger] inner[k] != ')',
    ensures
        ({
            let h = front + "'shape':"@ + gap + seq!['('] + inner + seq![')'] + back;
            &&& field_values(comma_fields(inner)) is None ==> header_shape(h) == Err::<
                Seq<usize>,
                _,
            >(NpyFault::<Seq<char>, Seq<usize>>::BadDimension)
            &&& field_values(comma_fields(inner)) matches Some(dims) ==> header_shape(h) == Ok::<
                _,
                SpecNpyError,
            >(dims)
        }),
        header_shape(front + "'shape':"@ + gap) == Err::<Seq<usize>, _>(
            NpyFault::<Seq<char>, Seq<usize>>::NoShapeTuple,
        ),
        header_shape(front + "'shape':"@ + gap + seq!['('] + inner) == Err::<Seq<usize>, _>(
            NpyFault::<Seq<char>, Seq<usize>>::UnterminatedShapeTuple,
        ),
        !(exists|k: int| occurs_at(front, "'shape':"@, k)) ==> header_shape(front) == Err::<
            Seq<usize>,
            _,
        >(NpyFault::<Seq<char>, Seq<usize>>::NoShape),
{
    let key = "'shape':"@;
    reveal_strlit("'shape':");
    let body = gap + seq!['('] + inner + seq![')'] + back;
    let open = gap + seq!['('] + inner;
    let h = front + key + gap + seq!['('] + inner + seq![')'] + back;
    assert(h =~= front + key + body);
    lemma_behind_key(front, body);
    assert(front + key + gap + seq!['('] + inner =~= front + key + open);
    lemma_behind_key(front, open);
    lemma_behind_key(front, gap);
    let n = gap.len() as int;
    let m = n + 1 + inner.len();
    assert(first_at(body, seq!['('], n)) by {
        assert(body.subrange(n, n + 1) =~= seq!['(']);
        assert forall|k: int| 0 <= k < n implies !#[trigger] occurs_at(body, seq!['('], k) by {
            assert(body.subrange(k, k + 1)[0] == body[k]);
            assert(body[k] == gap[k]);
        }
    }
    lemma_position(body, seq!['(']);
    assert(first_at(body, seq![')'], m)) by {
        assert(body.subrange(m, m + 1) =~= seq![')']);
        assert forall|k: int| 0 <= k < m implies !#[trigger] occurs_at(body, seq![')'], k) by {
            assert(body.subrange(k, k + 1)[0] == body[k]);
            if k < n {
                assert(body[k] == gap[k]);
            } else if k > n {
                assert(body[k] == inner[k - n - 1]);
            }
        }
    }
    lemma_position(body, seq![')']);
    assert(body.subrange(n + 1, m) =~= inner);
    assert(first_at(open, seq!['('], n)) by {
        assert(open.subrange(n, n + 1) =~= seq!['(']);
        assert forall|k: int| 0 <= k < n implies !#[trigger] occurs_at(open, seq!['('], k) by {
            assert(open.subrange(k, k + 1)[0] == open[k]);
            assert(open[k] == gap[k]);
        }
    }
    lemma_position(open, seq!['(']);
    assert forall|k: int| !occurs_at(open, seq![')'], k) by {
        if occurs_at(open, seq![')'], k) {
            assert(open.subrange(k, k + 1)[0] == open[k]);
            if k < n {
                assert(open[k] == gap[k]);
            } else if k > n {
                assert(open[k] == inner[k - n - 1]);
            }
        }
    }
    lemma_position(open, seq![')']);
    assert forall|k: int| !occurs_at(gap, seq!['('], k) by {
        if occurs_at(gap, seq!['('], k) {
            assert(gap.subrange(k, k + 1)[0] == gap[k]);
        }
    }
    lemma_position(gap, seq!['(']);
    lemma_position(front, key);
}

/// The first key is where it is put, whatever comes behind it.
proof fn lemma_behind_key(front: Seq<char>, body: Seq<char>)
    requires
        forall|k: int|
            0 <= k < front.len() ==> !#[trigger] occurs_at(front + "'shape':"@, "'shape':"@, k),
    ensures
        after_shape_key(front + "'shape':"@ + body) == Some(body),
{
    let key = "'shape':"@;
    let h = front + key + body;
    let n = front.len() as int;
    reveal_strlit("'shape':");
    assert(key.len() == 8);
    assert(first_at(h, key, n)) by {
        assert(h.subrange(n, n + 8) =~= key);
        assert forall|k: int| 0 <= k < n implies !#[trigger] occurs_at(h, key, k) by {
            if occurs_at(h, key, k) {
                assert((front + key).subrange(k, k + 8) =~= h.subrange(k, k + 8));
                assert(occurs_at(front + key, key, k));
            }
        }
    }
    lemma_position(h, key);
    assert(h.skip(n + 8) =~= body);
}

} // verus!
