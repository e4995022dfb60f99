use vstd::prelude::*;
use vstd::string::{StrSliceExecFns, StringExecFns};
use itertools::Itertools;
use crate::text::{decimal, decimal_string, push_char};

verus! {

/// The pieces of `s` between newline characters; there is always one more
/// piece than there are newlines.
pub open spec fn split_lines(s: Seq<char>) -> Seq<Seq<char>>
    decreases s.len(),
{
    if s.len() == 0 {
        seq![Seq::<char>::empty()]
    } else {
        let prev = split_lines(s.drop_last());
        if s.last() == '\n' {
            prev.push(Seq::<char>::empty())
        } else {
            prev.update(prev.len() - 1, prev.last().push(s.last()))
        }
    }
}

/// `parts` separated by `sep`.
pub open spec fn join(parts: Seq<Seq<char>>, sep: Seq<char>) -> Seq<char>
    decreases parts.len(),
{
    if parts.len() == 0 {
        Seq::empty()
    } else if parts.len() == 1 {
        parts[0]
    } else {
        join(parts.drop_last(), sep) + sep + parts.last()
    }
}

pub open spec fn spaces(n: nat) -> Seq<char> {
    Seq::new(n, |i: int| ' ')
}

/// Line `i` (counting from zero) with its number, right-padded to `width` digits.
pub open spec fn numbered_line(i: nat, width: nat, line: Seq<char>) -> Seq<char> {
    decimal(i + 1) + " "@ + spaces((width - decimal(i + 1).len()) as nat) + "| "@ + line
}

/// The code with every line prefixed by its number; the numbers are padded to
/// the width of the number of newlines.
pub open spec fn spec_code_with_line_numbers(code: Seq<char>) -> Seq<char> {
    let lines = split_lines(code);
    let width = decimal((lines.len() - 1) as nat).len();
    join(Seq::new(lines.len(), |i: int| numbered_line(i as nat, width, lines[i])), "\n"@)
}

/// `Itertools::join` over strings: the strings separated by `sep`.
#[verifier::external_body]
fn join_strings(parts: &Vec<String>, sep: &str) -> (r: String)
    ensures
        r@ == join(parts@.map_values(|p: String| p@), sep@),
{
    parts.iter().join(sep)
}

proof fn lemma_split_lines_nonempty(s: Seq<char>)
    ensures
        split_lines(s).len() >= 1,
    decreases s.len(),
{
    if s.len() > 0 {
        lemma_split_lines_nonempty(s.drop_last());
    }
}

proof fn lemma_decimal_len_monotone(a: nat, b: nat)
    requires
        a <= b,
    ensures
        decimal(a).len() <= decimal(b).len(),
    decreases b,
{
    if b >= 10 && a >= 10 {
        lemma_decimal_len_monotone(a / 10, b / 10);
    } else if b >= 10 {
        lemma_decimal_len_positive(b);
    }
}

proof fn lemma_decimal_len_positive(n: nat)
    ensures
        decimal(n).len() >= 1,
    decreases n,
{
    if n >= 10 {
        lemma_decimal_len_positive(n / 10);
    }
}

fn numbered(i: usize, width: usize, line: &String) -> (r: String)
    requires
        i < usize::MAX,
        decimal((i + 1) as nat).len() <= width,
    ensures
        r@ == numbered_line(i as nat, width as nat, line@),
{
    let mut r = decimal_string((i + 1) as u64);
    let d = r.unicode_len();
    push_char(&mut r, ' ');
    proof {
        reveal_strlit(" ");
        assert(r@ =~= decimal((i + 1) as nat) + " "@ + spaces(0));
    }
    let mut k: usize = 0;
    while k < width - d
        invariant
            d == decimal((i + 1) as nat).len(),
            d <= width,
            k <= width - d,
            r@ == decimal((i + 1) as nat) + " "@ + spaces(k as nat),
        decreases width - d - k,
    {
        push_char(&mut r, ' ');
        k = k + 1;
        proof {
            assert(spaces(k as nat) =~= spaces((k - 1) as nat).push(' '));
        }
    }
    r.append("| ");
    r.append(line.as_str());
    r
}

/// Whether the numbers of the lines of `code` fit the width that
/// `code_with_line_numbers` pads them to: the line count must not have more
/// digits than the newline count.
pub fn line_numbers_fit(code: &str) -> (r: bool)
    requires
        code@.len() < usize::MAX,
    ensures
        r == (decimal((split_lines(code@).len()) as nat).len() <= decimal(
            (split_lines(code@).len() - 1) as nat,
        ).len()),
{
    let n = code.unicode_len();
    let mut pieces: usize = 1;
    let mut i: usize = 0;
    proof {
        assert(code@.take(0) =~= Seq::<char>::empty());
    }
    while i < n
        invariant
            n == code@.len(),
            n < usize::MAX,
            i <= n,
            1 <= pieces <= i + 1,
            split_lines(code@.take(i as int)).len() == pieces,
        decreases n - i,
    {
        let c = code.get_char(i);
        proof {
            assert(code@.take(i + 1).drop_last() =~= code@.take(i as int));
            assert(code@.take(i + 1).last() == c);
        }
        if c == '\n' {
            pieces = pieces + 1;
        }
        i = i + 1;
    }
    proof {
        assert(code@.take(n as int) =~= code@);
    }
    let a = decimal_string(pieces as u64);
    let b = decimal_string((pieces - 1) as u64);
    a.unicode_len() <= b.unicode_len()
}

/// Prefixes every line of `code` with its line number, as used when showing
/// shader sources in error messages. The numbers are padded to the width of
/// the number of newlines, so a text whose line count has more digits than its
/// newline count (9, 99, ... newlines) is not accepted.
pub fn code_with_line_numbers(code: &str) -> (r: String)
    requires
        decimal((split_lines(code@).len()) as nat).len() <= decimal(
            (split_lines(code@).len() - 1) as nat,
        ).len(),
    ensures
        r@ == spec_code_with_line_numbers(code@),
{
    let n = code.unicode_len();
    let mut lines: Vec<String> = Vec::new();
    let mut current = String::new();
    let mut i: usize = 0;
    proof {
        assert(code@.take(0) =~= Seq::<char>::empty());
        assert(lines@.map_values(|p: String| p@).push(current@) =~= seq![Seq::<char>::empty()]);
    }
    while i < n
        invariant
            n == code@.len(),
            i <= n,
            lines.len() <= i,
            split_lines(code@.take(i as int)) == lines@.map_values(|p: String| p@).push(current@),
        decreases n - i,
    {
        let c = code.get_char(i);
        proof {
            assert(code@.take(i + 1).drop_last() =~= code@.take(i as int));
            assert(code@.take(i + 1).last() == c);
        }
        if c == '\n' {
            let ghost old_lines = lines@;
            let ghost old_current = current@;
            lines.push(current);
            current = String::new();
            proof {
                assert(lines@.map_values(|p: String| p@) =~= old_lines.map_values(|p: String| p@).push(
                    old_current,
                ));
            }
        } else {
            let ghost old_current = current@;
            push_char(&mut current, c);
            proof {
                let prev = lines@.map_values(|p: String| p@).push(old_current);
                assert(prev.update(prev.len() - 1, prev.last().push(c)) =~= lines@.map_values(
                    |p: String| p@,
                ).push(current@));
            }
        }
        i = i + 1;
    }
    let ghost last = current@;
    let ghost before = lines@.map_values(|p: String| p@);
    lines.push(current);
    proof {
        assert(code@.take(n as int) =~= code@);
        assert(lines@.map_values(|p: String| p@) =~= before.push(last));
        assert(lines@.map_values(|p: String| p@) == split_lines(code@));
    }
    let pieces = lines.len();
    let count = pieces - 1;
    let width = decimal_string(count as u64).unicode_len();
    let mut numbered_lines: Vec<String> = Vec::new();
    let mut j: usize = 0;
    while j < pieces
        invariant
            pieces == lines.len(),
            pieces >= 1,
            count == pieces - 1,
            width == decimal(count as nat).len(),
            decimal(pieces as nat).len() <= width,
            lines@.map_values(|p: String| p@) == split_lines(code@),
            j <= pieces,
            numbered_lines.len() == j,
            forall|k: int|
                0 <= k < j ==> #[trigger] numbered_lines@[k]@ == numbered_line(k as nat, width as nat,
                    lines@[k]@),
        decreases pieces - j,
    {
        proof {
            lemma_decimal_len_monotone((j + 1) as nat, pieces as nat);
        }
        let line = numbered(j, width, &lines[j]);
        numbered_lines.push(line);
        j = j + 1;
    }
    let r = join_strings(&numbered_lines, "\n");
    proof {
        let split = split_lines(code@);
        assert(numbered_lines@.map_values(|p: String| p@) =~= Seq::new(
            split.len(),
            |k: int| numbered_line(k as nat, width as nat, split[k]),
        )) by {
            assert forall|k: int| 0 <= k < split.len() implies #[trigger] numbered_lines@[k]@
                == numbered_line(k as nat, width as nat, split[k]) by {
                assert(split[k] == lines@.map_values(|p: String| p@)[k]);
            }
        }
    }
    r
}

/// Whether `s` holds no newline.
pub open spec fn no_newline(s: Seq<char>) -> bool {
    forall|j: int| 0 <= j < s.len() ==> s[j] != '\n'
}

proof fn lemma_split_lines_append(s: Seq<char>, t: Seq<char>)
    requires
        no_newline(t),
    ensures
        split_lines(s + t) == split_lines(s).update(
            split_lines(s).len() - 1,
            split_lines(s).last() + t,
        ),
    decreases t.len(),
{
    lemma_split_lines_nonempty(s);
    if t.len() == 0 {
        assert(s + t =~= s);
        assert(split_lines(s).last() + t =~= split_lines(s).last());
        assert(split_lines(s).update(split_lines(s).len() - 1, split_lines(s).last())
            =~= split_lines(s));
    } else {
        let t0 = t.drop_last();
        lemma_split_lines_append(s, t0);
        assert((s + t).drop_last() =~= s + t0);
        assert((s + t).last() == t.last());
        assert(t.last() != '\n');
        let prev = split_lines(s + t0);
        assert(split_lines(s + t) == prev.update(prev.len() - 1, prev.last().push(t.last())));
        assert(prev.last() == split_lines(s).last() + t0);
        assert(split_lines(s).last() + t0 + seq![t.last()] =~= split_lines(s).last() + t);
        assert(prev.last().push(t.last()) =~= split_lines(s).last() + t);
        assert(split_lines(s + t) =~= split_lines(s).update(
            split_lines(s).len() - 1,
            split_lines(s).last() + t,
        ));
    }
}

/// Splitting pieces joined by newlines gives the pieces back, when none of
/// them holds a newline.
proof fn lemma_split_join(parts: Seq<Seq<char>>)
    requires
        parts.len() >= 1,
        forall|i: int| 0 <= i < parts.len() ==> no_newline(#[trigger] parts[i]),
    ensures
        split_lines(join(parts, "\n"@)) == parts,
    decreases parts.len(),
{
    reveal_strlit("\n");
    if parts.len() == 1 {
        lemma_split_lines_append(Seq::<char>::empty(), parts[0]);
        assert(Seq::<char>::empty() + parts[0] =~= parts[0]);
        assert(split_lines(Seq::<char>::empty()).last() + parts[0] =~= parts[0]);
        assert(seq![Seq::<char>::empty()].update(0, parts[0]) =~= parts);
    } else {
        let front = parts.drop_last();
        assert forall|i: int| 0 <= i < front.len() implies no_newline(#[trigger] front[i]) by {
            assert(front[i] == parts[i]);
        }
        lemma_split_join(front);
        let j = join(front, "\n"@);
        let jn = j + "\n"@;
        assert(jn.drop_last() =~= j);
        assert(jn.last() == '\n');
        assert(split_lines(jn) == split_lines(j).push(Seq::<char>::empty()));
        lemma_split_lines_append(jn, parts.last());
        assert(join(parts, "\n"@) == jn + parts.last());
        assert(Seq::<char>::empty() + parts.last() =~= parts.last());
        assert(split_lines(jn + parts.last()) =~= parts);
    }
}

proof fn lemma_split_lines_no_newline(s: Seq<char>)
    ensures
        forall|i: int| 0 <= i < split_lines(s).len() ==> no_newline(#[trigger] split_lines(s)[i]),
    decreases s.len(),
{
    lemma_split_lines_nonempty(s);
    if s.len() > 0 {
        lemma_split_lines_no_newline(s.drop_last());
        lemma_split_lines_nonempty(s.drop_last());
    }
}

proof fn lemma_decimal_no_newline(n: nat)
    ensures
        no_newline(decimal(n)),
    decreases n,
{
    if n >= 10 {
        lemma_decimal_no_newline(n / 10);
        assert forall|j: int| 0 <= j < decimal(n).len() implies decimal(n)[j] != '\n' by {
            if j < decimal(n).len() - 1 {
                assert(decimal(n)[j] == decimal(n / 10)[j]);
            }
        }
    }
}

/// The numbered code has a line for every line of the code: each starts with
/// its number, has `| ` in the same column (one past the width of the
/// numbers), and ends with the code's line after it.
pub proof fn lemma_line_numbers_round_trip(code: Seq<char>)
    requires
        decimal((split_lines(code).len()) as nat).len() <= decimal(
            (split_lines(code).len() - 1) as nat,
        ).len(),
    ensures
        ({
            let lines = split_lines(code);
            let out = split_lines(spec_code_with_line_numbers(code));
            let width = decimal((lines.len() - 1) as nat).len();
            &&& out.len() == lines.len()
            &&& forall|i: int|
                0 <= i < out.len() ==> (#[trigger] out[i]).take(decimal((i + 1) as nat).len() as int)
                    == decimal((i + 1) as nat)
            &&& forall|i: int|
                0 <= i < out.len() ==> (#[trigger] out[i]).subrange(width as int + 1, width as int + 3) == "| "@
            &&& forall|i: int| 0 <= i < out.len() ==> (#[trigger] out[i]).skip(width as int + 3) == lines[i]
        }),
{
    reveal_strlit("| ");
    reveal_strlit(" ");
    let lines = split_lines(code);
    lemma_split_lines_nonempty(code);
    lemma_split_lines_no_newline(code);
    let width = decimal((lines.len() - 1) as nat).len();
    let parts = Seq::new(lines.len(), |i: int| numbered_line(i as nat, width, lines[i]));
    assert forall|i: int| 0 <= i < parts.len() implies no_newline(#[trigger] parts[i]) by {
        lemma_decimal_no_newline((i + 1) as nat);
        let p = parts[i];
        let d = decimal((i + 1) as nat);
        assert forall|j: int| 0 <= j < p.len() implies p[j] != '\n' by {
            if j < d.len() {
                assert(p[j] == d[j]);
            } else if j >= p.len() - lines[i].len() {
                assert(p[j] == lines[i][j - (p.len() - lines[i].len())]);
            }
        }
    }
    lemma_split_join(parts);
    assert forall|i: int| 0 <= i < parts.len() implies {
        &&& (#[trigger] parts[i]).take(decimal((i + 1) as nat).len() as int) == decimal((i + 1) as nat)
        &&& parts[i].subrange(width as int + 1, width as int + 3) == "| "@
        &&& parts[i].skip(width as int + 3) == lines[i]
    } by {
        let d = decimal((i + 1) as nat);
        lemma_decimal_len_monotone((i + 1) as nat, lines.len() as nat);
        assert(d.len() <= width);
        let p = parts[i];
        assert(p == d + " "@ + spaces((width - d.len()) as nat) + "| "@ + lines[i]);
        assert(p.take(d.len() as int) =~= d);
        assert(p.subrange(width as int + 1, width as int + 3) =~= "| "@);
        assert(p.skip(width as int + 3) =~= lines[i]);
    }
}

} // verus!
