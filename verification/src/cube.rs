use vstd::prelude::*;
use vstd::string::{StrSliceExecFns, StringExecFns};
use crate::text::{decimal, decimal_string, push_char};

verus! {

/// The pieces of `s` between occurrences of `sep`; one more piece than
/// there are separators.
pub open spec fn split_on(s: Seq<char>, sep: char) -> Seq<Seq<char>>
    decreases s.len(),
{
    if s.len() == 0 {
        seq![Seq::<char>::empty()]
    } else {
        let prev = split_on(s.drop_last(), sep);
        if s.last() == sep {
            prev.push(Seq::<char>::empty())
        } else {
            prev.update(prev.len() - 1, prev.last().push(s.last()))
        }
    }
}

/// Splits `s` at every `sep` (`str::split` with a character).
pub fn split_char(s: &str, sep: char) -> (r: Vec<String>)
    ensures
        r@.map_values(|p: String| p@) == split_on(s@, sep),
{
    let n = s.unicode_len();
    let mut pieces: Vec<String> = Vec::new();
    let mut current = String::new();
    let mut i: usize = 0;
    proof {
        assert(s@.take(0) =~= Seq::<char>::empty());
        assert(pieces@.map_values(|p: String| p@).push(current@) =~= seq![Seq::<char>::empty()]);
    }
    while i < n
        invariant
            n == s@.len(),
            i <= n,
            split_on(s@.take(i as int), sep) == pieces@.map_values(|p: String| p@).push(current@),
        decreases n - i,
    {
        let c = s.get_char(i);
        proof {
            assert(s@.take(i + 1).drop_last() =~= s@.take(i as int));
            assert(s@.take(i + 1).last() == c);
        }
        if c == sep {
            let ghost old_pieces = pieces@;
            let ghost old_current = current@;
            pieces.push(current);
            current = String::new();
            proof {
                assert(pieces@.map_values(|p: String| p@) =~= old_pieces.map_values(|p: String| p@).push(
                    old_current,
                ));
            }
        } else {
            let ghost old_current = current@;
            push_char(&mut current, c);
            proof {
                let prev = pieces@.map_values(|p: String| p@).push(old_current);
                assert(prev.update(prev.len() - 1, prev.last().push(c)) =~= pieces@.map_values(
                    |p: String| p@,
                ).push(current@));
            }
        }
        i = i + 1;
    }
    let ghost last = current@;
    let ghost before = pieces@.map_values(|p: String| p@);
    pieces.push(current);
    proof {
        assert(s@.take(n as int) =~= s@);
        assert(pieces@.map_values(|p: String| p@) =~= before.push(last));
    }
    pieces
}

proof fn lemma_split_on_nonempty(s: Seq<char>, sep: char)
    ensures
        split_on(s, sep).len() >= 1,
    decreases s.len(),
{
    if s.len() > 0 {
        lemma_split_on_nonempty(s.drop_last(), sep);
    }
}

/// A line without the carriage return of a `\r\n` ending.
pub open spec fn strip_cr(line: Seq<char>) -> Seq<char> {
    if line.len() > 0 && line.last() == '\r' {
        line.drop_last()
    } else {
        line
    }
}

/// The lines of a text as `str::lines` yields them: split at `\n`, a `\r`
/// before the `\n` removed, and no empty line after a final newline.
pub open spec fn text_lines(s: Seq<char>) -> Seq<Seq<char>> {
    let pieces = split_on(s, '\n');
    let n = pieces.len() - 1;
    let ended = Seq::new(n as nat, |i: int| strip_cr(pieces[i]));
    if pieces[n].len() == 0 {
        ended
    } else {
        ended.push(pieces[n])
    }
}

pub open spec fn spec_starts_with(s: Seq<char>, prefix: Seq<char>) -> bool {
    prefix.len() <= s.len() && s.take(prefix.len() as int) == prefix
}

pub fn starts_with(s: &str, prefix: &str) -> (r: bool)
    ensures
        r == spec_starts_with(s@, prefix@),
{
    let n = prefix.unicode_len();
    if n > s.unicode_len() {
        return false;
    }
    let mut i: usize = 0;
    while i < n
        invariant
            n == prefix@.len(),
            n <= s@.len(),
            i <= n,
            forall|j: int| 0 <= j < i ==> s@[j] == prefix@[j],
        decreases n - i,
    {
        if s.get_char(i) != prefix.get_char(i) {
            return false;
        }
        i = i + 1;
    }
    proof {
        assert(s@.take(n as int) =~= prefix@);
    }
    true
}

pub open spec fn is_digit(c: char) -> bool {
    '0' <= c && c <= '9'
}

/// The number written by the decimal digits `s`.
pub open spec fn digits_value(s: Seq<char>) -> nat
    decreases s.len(),
{
    if s.len() == 0 {
        0
    } else {
        digits_value(s.drop_last()) * 10 + ((s.last() as int) - ('0' as int)) as nat
    }
}

/// What `usize::from_str` accepts: an optional `+` and at least one decimal
/// digit, with a value that fits.
pub open spec fn spec_parse_usize(s: Seq<char>) -> Option<usize> {
    let body = number_body(s);
    if body.len() > 0 && all_digits(body) && digits_value(body) <= usize::MAX {
        Some(digits_value(body) as usize)
    } else {
        None
    }
}

/// The digits of a number: without a leading `+`.
pub open spec fn number_body(s: Seq<char>) -> Seq<char> {
    if s.len() > 0 && s[0] == '+' {
        s.drop_first()
    } else {
        s
    }
}

pub open spec fn all_digits(s: Seq<char>) -> bool {
    forall|i: int| 0 <= i < s.len() ==> is_digit(#[trigger] s[i])
}

proof fn lemma_digits_value_grows(s: Seq<char>, k: int)
    requires
        0 <= k <= s.len(),
        forall|i: int| 0 <= i < s.len() ==> is_digit(#[trigger] s[i]),
    ensures
        digits_value(s.take(k)) <= digits_value(s),
    decreases s.len() - k,
{
    if k < s.len() {
        lemma_digits_value_grows(s, k + 1);
        assert(s.take(k + 1).drop_last() =~= s.take(k));
    } else {
        assert(s.take(k) =~= s);
    }
}

/// Parses a decimal number the way `usize::from_str` does.
pub fn parse_usize(s: &str) -> (r: Option<usize>)
    ensures
        r == spec_parse_usize(s@),
{
    let n = s.unicode_len();
    let mut start: usize = 0;
    if n > 0 && s.get_char(0) == '+' {
        start = 1;
    }
    let ghost body = number_body(s@);
    assert(body =~= s@.skip(start as int));
    if start == n {
        return None;
    }
    let mut value: usize = 0;
    let mut i: usize = start;
    while i < n
        invariant
            n == s@.len(),
            start <= i <= n,
            start < n,
            body == s@.skip(start as int),
            body == number_body(s@),
            forall|j: int| start <= j < i ==> is_digit(#[trigger] s@[j]),
            value == digits_value(s@.subrange(start as int, i as int)),
        decreases n - i,
    {
        let c = s.get_char(i);
        proof {
            assert(s@.subrange(start as int, i + 1).drop_last() =~= s@.subrange(start as int, i as int));
        }
        if !('0' <= c && c <= '9') {
            proof {
                assert(s@[i as int] == c);
                assert(body[i - start] == s@[i as int]);
                assert(!is_digit(body[i - start]));
                assert(!all_digits(body));
                assert(spec_parse_usize(s@) is None);
            }
            return None;
        }
        let d = (c as u32 - '0' as u32) as usize;
        if value > (usize::MAX - d) / 10 {
            proof {
                let prefix = s@.subrange(start as int, i + 1);
                assert(value * 10 + d > usize::MAX) by (nonlinear_arith)
                    requires
                        value > (usize::MAX - d) / 10,
                        d <= 9,
                ;
                assert(prefix.last() == c);
                assert(digits_value(prefix) == value * 10 + d);
                if all_digits(body) {
                    lemma_digits_value_grows(body, (i + 1 - start) as int);
                    assert(body.take((i + 1 - start) as int) =~= prefix);
                    assert(digits_value(body) > usize::MAX);
                }
                assert(spec_parse_usize(s@) is None);
            }
            return None;
        }
        value = value * 10 + d;
        i = i + 1;
    }
    proof {
        assert(s@.subrange(start as int, n as int) =~= body);
        assert forall|j: int| 0 <= j < body.len() implies is_digit(#[trigger] body[j]) by {
            assert(body[j] == s@[start + j]);
        }
    }
    Some(value)
}

/// Why the size of a cube file cannot be read.
#[derive(Copy, Clone, Debug, PartialEq, Eq, Structural)]
pub enum CubeSizeError {
    /// The `LUT_3D_SIZE` line (with this 1-based number) has no argument.
    MissingArgument { line: usize },
    /// The argument of `LUT_3D_SIZE` is not a number.
    InvalidNumber,
    /// No line starts with `LUT_3D_SIZE`.
    NotFound,
}

impl CubeSizeError {
    /// The error as text.
    pub fn message(&self) -> (m: String)
        ensures
            m@ == match self {
                CubeSizeError::MissingArgument { line } => "Invalid cube file: LUT_3D_SIZE is missing an argument (line "@
                    + decimal(*line as nat) + ")"@,
                CubeSizeError::InvalidNumber => "Invalid cube file: the argument of LUT_3D_SIZE is not a number"@,
                CubeSizeError::NotFound => "Invalid cube file: Couldn't find LUT_3D_SIZE"@,
            },
    {
        match self {
            CubeSizeError::MissingArgument { line } => {
                let mut m = String::from_str("Invalid cube file: LUT_3D_SIZE is missing an argument (line ");
                let n = decimal_string(*line as u64);
                m.append(n.as_str());
                m.append(")");
                m
            },
            CubeSizeError::InvalidNumber => String::from_str(
                "Invalid cube file: the argument of LUT_3D_SIZE is not a number",
            ),
            CubeSizeError::NotFound => String::from_str("Invalid cube file: Couldn't find LUT_3D_SIZE"),
        }
    }
}

/// The size announced by the first non-empty line that starts with
/// `LUT_3D_SIZE`: its second space separated word.
pub open spec fn spec_cube_size_from(lines: Seq<Seq<char>>, from: int) -> Result<usize, CubeSizeError>
    decreases lines.len() - from,
{
    if from >= lines.len() {
        Err(CubeSizeError::NotFound)
    } else if lines[from].len() > 0 && spec_starts_with(lines[from], "LUT_3D_SIZE"@) {
        let parts = split_on(lines[from], ' ');
        if parts.len() < 2 {
            Err(CubeSizeError::MissingArgument { line: (from + 1) as usize })
        } else {
            match spec_parse_usize(parts[1]) {
                Some(n) => Ok(n),
                None => Err(CubeSizeError::InvalidNumber),
            }
        }
    } else {
        spec_cube_size_from(lines, from + 1)
    }
}

pub open spec fn spec_read_cube_size(contents: Seq<char>) -> Result<usize, CubeSizeError> {
    spec_cube_size_from(text_lines(contents), 0)
}

/// The lines of a text (`str::lines`).
pub fn lines_of(s: &str) -> (r: Vec<String>)
    ensures
        r@.map_values(|p: String| p@) == text_lines(s@),
{
    let pieces = split_char(s, '\n');
    let ghost pv = pieces@.map_values(|p: String| p@);
    proof {
        lemma_split_on_nonempty(s@, '\n');
    }
    let n = pieces.len() - 1;
    let mut out: Vec<String> = Vec::new();
    let mut i: usize = 0;
    while i < n
        invariant
            pv == split_on(s@, '\n'),
            pv == pieces@.map_values(|p: String| p@),
            n == pieces.len() - 1,
            i <= n,
            out@.map_values(|p: String| p@) == Seq::new(i as nat, |k: int| strip_cr(pv[k])),
        decreases n - i,
    {
        let line = &pieces[i];
        let len = line.unicode_len();
        let piece = if len > 0 && line.as_str().get_char(len - 1) == '\r' {
            String::from_str(line.as_str().substring_char(0, len - 1))
        } else {
            line.clone()
        };
        proof {
            assert(pv[i as int] == line@);
            if len > 0 && line@.last() == '\r' {
                assert(line@.subrange(0, len - 1) =~= line@.drop_last());
            }
            assert(piece@ == strip_cr(pv[i as int]));
        }
        let ghost old_out = out@;
        out.push(piece);
        i = i + 1;
        proof {
            assert(out@.map_values(|p: String| p@) =~= old_out.map_values(|p: String| p@).push(
                strip_cr(pv[i - 1]),
            ));
            assert(out@.map_values(|p: String| p@) =~= Seq::new(i as nat, |k: int| strip_cr(pv[k])));
        }
    }
    if pieces[n].unicode_len() > 0 {
        let last = pieces[n].clone();
        let ghost before = out@.map_values(|p: String| p@);
        out.push(last);
        proof {
            assert(out@.map_values(|p: String| p@) =~= before.push(pv[n as int]));
        }
    }
    out
}

/// Reads the edge length of a 3D lookup table from the text of a `.cube` file.
pub fn read_cube_size(file_contents: &str) -> (r: Result<usize, CubeSizeError>)
    ensures
        r == spec_read_cube_size(file_contents@),
{
    let lines = lines_of(file_contents);
    let ghost lv = lines@.map_values(|p: String| p@);
    let mut i: usize = 0;
    while i < lines.len()
        invariant
            lv == lines@.map_values(|p: String| p@),
            lv == text_lines(file_contents@),
            i <= lines.len(),
            spec_cube_size_from(lv, 0) == spec_cube_size_from(lv, i as int),
        decreases lines.len() - i,
    {
        let line = lines[i].as_str();
        proof {
            assert(lv[i as int] == line@);
        }
        if line.unicode_len() > 0 && starts_with(line, "LUT_3D_SIZE") {
            let parts = split_char(line, ' ');
            if parts.len() < 2 {
                return Err(CubeSizeError::MissingArgument { line: i + 1 });
            }
            proof {
                assert(parts@.map_values(|p: String| p@)[1] == parts@[1]@);
            }
            return match parse_usize(parts[1].as_str()) {
                Some(n) => Ok(n),
                None => Err(CubeSizeError::InvalidNumber),
            };
        }
        i = i + 1;
    }
    Err(CubeSizeError::NotFound)
}

} // verus!
