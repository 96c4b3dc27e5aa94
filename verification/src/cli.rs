//! What the command line program decides on plain values: where the output
//! goes, what kind of file an input is, and which colours were meant.

use crate::color::RGB8;
use crate::error::Error;
use vstd::prelude::*;
use vstd::string::StringSliceAdditionalSpecFns;

verus! {

/// Where the GIF is written to.
#[derive(Debug)]
pub enum DestPath {
    Path(String),
    Stdout,
}

/// The path that stands for the standard output.
pub open spec fn is_dash(path: Seq<u8>) -> bool {
    path.len() == 1 && path[0] == 45
}

impl DestPath {
    /// The destination for a path given on the command line; `-` means
    /// the standard output.
    pub fn new(path: &str) -> (dest: DestPath)
        ensures
            is_dash(path.spec_bytes()) <==> dest is Stdout,
            dest matches DestPath::Path(p) ==> p@ == path@,
    {
        let bytes = path.as_bytes();
        if bytes.len() == 1 && bytes[0] == 45 {
            DestPath::Stdout
        } else {
            DestPath::Path(path.to_owned())
        }
    }
}

/// The kinds of input files that are told apart.
#[allow(clippy::upper_case_acronyms)]
#[derive(Clone, Copy, Debug, PartialEq, Eq, Structural)]
pub enum FileType {
    PNG,
    GIF,
    JPEG,
    Y4M,
    Other,
}

/// The kind of a file by its first four bytes.
pub open spec fn file_type_spec(magic: Seq<u8>) -> FileType {
    if magic =~= seq![137u8, 80, 78, 71] {
        FileType::PNG
    } else if magic =~= seq![71u8, 73, 70, 56] {
        FileType::GIF
    } else if magic =~= seq![89u8, 85, 86, 52] {
        FileType::Y4M
    } else if magic.len() >= 2 && magic[0] == 255 && magic[1] == 216 {
        FileType::JPEG
    } else {
        FileType::Other
    }
}

/// The kind of a file by its first four bytes, with 0 for the bytes that
/// a shorter file lacks.
pub fn file_type(magic: &[u8; 4]) -> (t: FileType)
    ensures
        t == file_type_spec(magic@),
{
    if magic[0] == 137 && magic[1] == 80 && magic[2] == 78 && magic[3] == 71 {
        return FileType::PNG;
    }
    if magic[0] == 71 && magic[1] == 73 && magic[2] == 70 && magic[3] == 56 {
        return FileType::GIF;
    }
    if magic[0] == 89 && magic[1] == 85 && magic[2] == 86 && magic[3] == 52 {
        return FileType::Y4M;
    }
    if magic[0] == 255 && magic[1] == 216 {
        return FileType::JPEG;
    }
    FileType::Other
}

/// The lower case of an ASCII letter, and any other byte as it is.
pub open spec fn ascii_lower(b: u8) -> u8 {
    if 65 <= b <= 90 {
        (b + 32) as u8
    } else {
        b
    }
}

/// The kind of a file that its extension settles without a look into
/// the file: `y4m` and `png` in any case of the letters.
pub open spec fn extension_type_spec(ext: Seq<u8>) -> Option<FileType> {
    if ext.len() == 3 && ascii_lower(ext[0]) == 121 && ascii_lower(ext[1]) == 52 && ascii_lower(
        ext[2],
    ) == 109 {
        Some(FileType::Y4M)
    } else if ext.len() == 3 && ascii_lower(ext[0]) == 112 && ascii_lower(ext[1]) == 110
        && ascii_lower(ext[2]) == 103 {
        Some(FileType::PNG)
    } else {
        None
    }
}

fn lower(b: u8) -> (l: u8)
    ensures
        l == ascii_lower(b),
{
    if 65 <= b && b <= 90 {
        b + 32
    } else {
        b
    }
}

/// The kind of a file by the extension of its name, where that settles it.
pub fn extension_type(ext: &str) -> (t: Option<FileType>)
    ensures
        t == extension_type_spec(ext.spec_bytes()),
{
    let e = ext.as_bytes();
    if e.len() != 3 {
        return None;
    }
    let (a, b, c) = (lower(e[0]), lower(e[1]), lower(e[2]));
    if a == 121 && b == 52 && c == 109 {
        Some(FileType::Y4M)
    } else if a == 112 && b == 110 && c == 103 {
        Some(FileType::PNG)
    } else {
        None
    }
}

/// The error of the program: one of the encoder's, or one of the source
/// of the frames.
pub enum BinError<E> {
    Gifski(Error),
    Source(E),
}

/// The error that is reported when the encoder and the source of the
/// frames are both done. Where the encoder only stopped because the source
/// failed, the source's error tells more.
pub fn check_errors<E>(err1: Result<(), Error>, err2: Result<(), E>) -> (res: Result<(), BinError<E>>)
    ensures
        res is Ok <==> err1 is Ok && err2 is Ok,
        res matches Err(BinError::Source(e)) ==> err2 == Err::<(), E>(e) && (err1 is Ok
            || crate::error::cause_rank(err1) <= 3),
        res matches Err(BinError::Gifski(e)) ==> err1 == Err::<(), Error>(e) && (err2 is Ok
            || crate::error::cause_rank(err1) == 4),
{
    match err1 {
        Ok(_) => match err2 {
            Ok(_) => Ok(()),
            Err(e) => Err(BinError::Source(e)),
        },
        Err(e1) => match err2 {
            Ok(_) => Err(BinError::Gifski(e1)),
            Err(e2) => match e1 {
                Error::ThreadSend => Err(BinError::Source(e2)),
                Error::Aborted => Err(BinError::Source(e2)),
                Error::NoFrames => Err(BinError::Source(e2)),
                other => Err(BinError::Gifski(other)),
            },
        },
    }
}

/// Blank, tab, line feed, form feed and carriage return.
pub open spec fn is_ascii_whitespace(b: u8) -> bool {
    b == 32 || b == 9 || b == 10 || b == 12 || b == 13
}

/// The value of a hexadecimal digit.
pub open spec fn hex_digit(b: u8) -> Option<int> {
    if 48 <= b <= 57 {
        Some(b - 48)
    } else if 97 <= b <= 102 {
        Some(b - 87)
    } else if 65 <= b <= 70 {
        Some(b - 55)
    } else {
        None
    }
}

/// The value of two characters as a hexadecimal number. The first may be a
/// plus sign before a single digit.
pub open spec fn hex_pair(hi: u8, lo: u8) -> Option<int> {
    match hex_digit(lo) {
        None => None,
        Some(l) => if hi == 43 {
            Some(l)
        } else {
            match hex_digit(hi) {
                None => None,
                Some(h) => Some(16 * h + l),
            }
        },
    }
}

/// The text between the first and the last character that is not white space.
pub open spec fn trimmed(s: Seq<u8>, from: int, to: int) -> bool {
    &&& 0 <= from <= to <= s.len()
    &&& forall|i: int| 0 <= i < from ==> is_ascii_whitespace(#[trigger] s[i])
    &&& forall|i: int| to <= i < s.len() ==> is_ascii_whitespace(#[trigger] s[i])
    &&& (from < to ==> !is_ascii_whitespace(s[from]) && !is_ascii_whitespace(s[to - 1]))
}

/// The colour that six hexadecimal digits stand for.
pub open spec fn color_of_digits(d: Seq<u8>) -> Option<RGB8> {
    if d.len() != 6 {
        None
    } else {
        match (hex_pair(d[0], d[1]), hex_pair(d[2], d[3]), hex_pair(d[4], d[5])) {
            (Some(r), Some(g), Some(b)) => Some(RGB8 { r: r as u8, g: g as u8, b: b as u8 }),
            _ => None,
        }
    }
}

/// The colour that a text stands for: six hexadecimal digits, after a `#`
/// or without, with white space around them or without.
pub open spec fn is_parsed_color(s: Seq<u8>, res: Option<RGB8>) -> bool {
    exists|from: int, to: int|
        #![trigger trimmed(s, from, to)]
        trimmed(s, from, to) && res == (if from < to && s[from] == 35 {
            color_of_digits(s.subrange(from + 1, to))
        } else {
            color_of_digits(s.subrange(from, to))
        })
}

fn hex_value(b: u8) -> (v: Option<u8>)
    ensures
        match v {
            Some(x) => hex_digit(b) == Some(x as int) && x < 16,
            None => hex_digit(b) is None,
        },
{
    if 48 <= b && b <= 57 {
        Some(b - 48)
    } else if 97 <= b && b <= 102 {
        Some(b - 87)
    } else if 65 <= b && b <= 70 {
        Some(b - 55)
    } else {
        None
    }
}

fn hex_pair_value(hi: u8, lo: u8) -> (v: Option<u8>)
    ensures
        match v {
            Some(x) => hex_pair(hi, lo) == Some(x as int),
            None => hex_pair(hi, lo) is None,
        },
{
    let l = match hex_value(lo) {
        Some(l) => l,
        None => {
            return None;
        },
    };
    if hi == 43 {
        return Some(l);
    }
    match hex_value(hi) {
        Some(h) => Some(16 * h + l),
        None => None,
    }
}

fn is_space(b: u8) -> (w: bool)
    ensures
        w == is_ascii_whitespace(b),
{
    b == 32 || b == 9 || b == 10 || b == 12 || b == 13
}

/// Reads a colour from the bytes of a text between `start` and `end`.
fn parse_color_bytes(s: &[u8], start: usize, end: usize) -> (res: Option<RGB8>)
    requires
        start <= end <= s@.len(),
    ensures
        is_parsed_color(s@.subrange(start as int, end as int), res),
{
    let ghost text = s@.subrange(start as int, end as int);
    let mut from = start;
    while from < end && is_space(s[from])
        invariant
            start <= from <= end <= s@.len(),
            forall|i: int| start <= i < from ==> is_ascii_whitespace(#[trigger] s@[i]),
        decreases end - from,
    {
        from += 1;
    }
    let mut to = end;
    while to > from && is_space(s[to - 1])
        invariant
            from <= to <= end <= s@.len(),
            forall|i: int| to <= i < end ==> is_ascii_whitespace(#[trigger] s@[i]),
        decreases to - from,
    {
        to -= 1;
    }
    assert(trimmed(text, from - start, to - start)) by {
        assert forall|i: int| 0 <= i < from - start implies is_ascii_whitespace(
            #[trigger] text[i],
        ) by {
            assert(text[i] == s@[start + i]);
        }
        assert forall|i: int| to - start <= i < text.len() implies is_ascii_whitespace(
            #[trigger] text[i],
        ) by {
            assert(text[i] == s@[start + i]);
        }
    }
    let digits = if from < to && s[from] == 35 {
        from + 1
    } else {
        from
    };
    let ghost d = s@.subrange(digits as int, to as int);
    assert(d =~= (if from < to && text[from - start] == 35 {
        text.subrange(from - start + 1, to - start)
    } else {
        text.subrange(from - start, to - start)
    }));
    if to - digits != 6 {
        return None;
    }
    let r = hex_pair_value(s[digits], s[digits + 1]);
    let g = hex_pair_value(s[digits + 2], s[digits + 3]);
    let b = hex_pair_value(s[digits + 4], s[digits + 5]);
    match (r, g, b) {
        (Some(r), Some(g), Some(b)) => Some(RGB8 { r, g, b }),
        _ => None,
    }
}

/// Reads a colour as it is given on the command line.
pub fn parse_color(c: &str) -> (res: Result<RGB8, String>)
    ensures
        color_of(c.spec_bytes()) == (match res {
            Ok(color) => Some(color),
            Err(_) => None,
        }),
{
    let bytes = c.as_bytes();
    assert(bytes@.subrange(0, bytes@.len() as int) =~= bytes@);
    let parsed = parse_color_bytes(bytes, 0, bytes.len());
    proof {
        lemma_parsed_color_unique(bytes@, parsed, color_of(bytes@));
    }
    match parsed {
        Some(color) => Ok(color),
        None => Err("color must be 6-char hex format".to_string()),
    }
}

/// Blank and comma part the colours of a list.
pub open spec fn is_separator(b: u8) -> bool {
    b == 32 || b == 44
}

/// The colour that a text stands for, if it stands for one.
pub open spec fn color_of(text: Seq<u8>) -> Option<RGB8> {
    choose|res: Option<RGB8>| is_parsed_color(text, res)
}

/// Where the part of the list begins that ends before `upto`: after the
/// last separator before `upto`, or at the beginning.
pub open spec fn part_start(s: Seq<u8>, upto: int) -> int
    decreases upto,
{
    if upto <= 0 || upto > s.len() || is_separator(s[upto - 1]) {
        upto
    } else {
        part_start(s, upto - 1)
    }
}

/// The colours of the parts of the list that end before `upto`, the empty
/// parts left out; none where one of the parts is no colour.
pub open spec fn color_list(s: Seq<u8>, upto: int) -> Option<Seq<RGB8>>
    decreases upto,
{
    if upto <= 0 || upto > s.len() {
        Some(Seq::empty())
    } else {
        let from = part_start(s, upto);
        if from >= upto {
            color_list(s, upto - 1)
        } else if from < 0 {
            None
        } else {
            let before = if from == 0 {
                Some(Seq::empty())
            } else {
                color_list(s, from - 1)
            };
            match (color_of(s.subrange(from, upto)), before) {
                (Some(c), Some(rest)) => Some(rest.push(c)),
                _ => None,
            }
        }
    }
}

/// A text stands for one colour at most.
pub proof fn lemma_parsed_color_unique(s: Seq<u8>, a: Option<RGB8>, b: Option<RGB8>)
    requires
        is_parsed_color(s, a),
        is_parsed_color(s, b),
    ensures
        a == b,
{
    let (f1, t1) = choose|from: int, to: int|
        #![trigger trimmed(s, from, to)]
        trimmed(s, from, to) && a == (if from < to && s[from] == 35 {
            color_of_digits(s.subrange(from + 1, to))
        } else {
            color_of_digits(s.subrange(from, to))
        });
    let (f2, t2) = choose|from: int, to: int|
        #![trigger trimmed(s, from, to)]
        trimmed(s, from, to) && b == (if from < to && s[from] == 35 {
            color_of_digits(s.subrange(from + 1, to))
        } else {
            color_of_digits(s.subrange(from, to))
        });
    if f1 < t1 && f2 < t2 {
        // the first and the last character that is no white space
        assert(f1 == f2) by {
            if f1 < f2 {
                assert(is_ascii_whitespace(s[f1]));
            }
            if f2 < f1 {
                assert(is_ascii_whitespace(s[f2]));
            }
        }
        assert(t1 == t2) by {
            if t1 < t2 {
                assert(is_ascii_whitespace(s[t2 - 1]));
            }
            if t2 < t1 {
                assert(is_ascii_whitespace(s[t1 - 1]));
            }
        }
    } else if f1 < t1 {
        // the other says that all is white space
        assert(is_ascii_whitespace(s[f1])) by {
            if f1 < f2 {
            } else {
                assert(t2 <= f1);
            }
        }
    } else if f2 < t2 {
        assert(is_ascii_whitespace(s[f2])) by {
            if f2 < f1 {
            } else {
                assert(t1 <= f2);
            }
        }
    } else {
        assert(s.subrange(f1, t1).len() == 0);
        assert(s.subrange(f2, t2).len() == 0);
    }
}

/// A part without separator that begins after a separator begins there.
pub proof fn lemma_part_start(s: Seq<u8>, from: int, upto: int)
    requires
        0 <= from <= upto <= s.len(),
        from > 0 ==> is_separator(s[from - 1]),
        forall|i: int| from <= i < upto ==> !is_separator(#[trigger] s[i]),
    ensures
        part_start(s, upto) == from,
    decreases upto - from,
{
    if from < upto {
        assert(!is_separator(s[upto - 1]));
        lemma_part_start(s, from, upto - 1);
    }
}

/// A part that is no colour spoils the whole list.
pub proof fn lemma_spoilt_list(s: Seq<u8>, at: int, upto: int)
    requires
        0 <= at <= upto <= s.len(),
        at < upto ==> is_separator(s[at]),
        color_list(s, at) is None,
    ensures
        color_list(s, upto) is None,
    decreases upto,
{
    if at < upto {
        let from = part_start(s, upto);
        if from >= upto {
            lemma_spoilt_list(s, at, upto - 1);
        } else {
            lemma_part_start_bounds(s, upto);
            // the separator at `at` lies before the part
            assert(at < from) by {
                if from <= at {
                    assert(!is_separator(s[at]));
                }
            }
            lemma_spoilt_list(s, at, from - 1);
        }
    }
}

/// A part begins after a separator or at the beginning, and holds no separator.
pub proof fn lemma_part_start_bounds(s: Seq<u8>, upto: int)
    requires
        0 <= upto <= s.len(),
    ensures
        0 <= part_start(s, upto) <= upto,
        part_start(s, upto) > 0 ==> is_separator(s[part_start(s, upto) - 1]),
        forall|i: int| part_start(s, upto) <= i < upto ==> !is_separator(#[trigger] s[i]),
    decreases upto,
{
    if upto > 0 && !is_separator(s[upto - 1]) {
        lemma_part_start_bounds(s, upto - 1);
    }
}

/// Reads a list of colours that are parted by blanks or commas. One part
/// that is no colour spoils the list.
pub fn parse_colors(colors: &str) -> (res: Result<Vec<RGB8>, String>)
    ensures
        match res {
            Ok(list) => color_list(colors.spec_bytes(), colors.spec_bytes().len() as int) == Some(
                list@,
            ),
            Err(_) => color_list(colors.spec_bytes(), colors.spec_bytes().len() as int) is None,
        },
{
    let s = colors.as_bytes();
    let mut list: Vec<RGB8> = Vec::new();
    let mut from: usize = 0;
    let mut i: usize = 0;
    while i < s.len()
        invariant
            s@ == colors.spec_bytes(),
            from <= i <= s@.len(),
            from > 0 ==> is_separator(s@[from - 1]),
            forall|k: int| from <= k < i ==> !is_separator(#[trigger] s@[k]),
            color_list(s@, from - 1) == Some(list@),
        decreases s.len() - i,
    {
        if s[i] == 32 || s[i] == 44 {
            if from < i {
                let part = parse_color_bytes(s, from, i);
                proof {
                    lemma_part_start(s@, from as int, i as int);
                    lemma_parsed_color_unique(
                        s@.subrange(from as int, i as int),
                        part,
                        color_of(s@.subrange(from as int, i as int)),
                    );
                }
                match part {
                    Some(color) => {
                        list.push(color);
                    },
                    None => {
                        proof {
                            assert(color_list(s@, i as int) is None);
                            lemma_spoilt_list(s@, i as int, s@.len() as int);
                        }
                        return Err("color must be 6-char hex format".to_string());
                    },
                }
            }
            proof {
                // the separator ends an empty part
                lemma_part_start(s@, i as int + 1, i as int + 1);
            }
            from = i + 1;
        }
        i += 1;
    }
    if from < s.len() {
        let part = parse_color_bytes(s, from, s.len());
        proof {
            lemma_part_start(s@, from as int, s@.len() as int);
            lemma_parsed_color_unique(
                s@.subrange(from as int, s@.len() as int),
                part,
                color_of(s@.subrange(from as int, s@.len() as int)),
            );
        }
        match part {
            Some(color) => {
                list.push(color);
            },
            None => {
                assert(color_list(s@, s@.len() as int) is None);
                return Err("color must be 6-char hex format".to_string());
            },
        }
    } else {
        proof {
            if from > 0 {
                lemma_part_start(s@, from as int, from as int);
            }
        }
    }
    Ok(list)
}

} // verus!
