//! Character-level text operations over the `Seq<char>` view of strings.
use vstd::prelude::*;
use vstd::string::*;

verus! {

/// Unicode's White_Space property.
pub open spec fn is_space(c: char) -> bool {
    ||| 0x9 <= c as int <= 0xd
    ||| c as int == 0x20
    ||| c as int == 0x85
    ||| c as int == 0xa0
    ||| c as int == 0x1680
    ||| 0x2000 <= c as int <= 0x200a
    ||| c as int == 0x2028
    ||| c as int == 0x2029
    ||| c as int == 0x202f
    ||| c as int == 0x205f
    ||| c as int == 0x3000
}

/// Whether `c` is white space.
pub fn is_white_space(c: char) -> (r: bool)
    ensures
        r == is_space(c),
{
    let u: u32 = c as u32;
    (0x9 <= u && u <= 0xd) || u == 0x20 || u == 0x85 || u == 0xa0 || u == 0x1680 || (0x2000 <= u
        && u <= 0x200a) || u == 0x2028 || u == 0x2029 || u == 0x202f || u == 0x205f || u == 0x3000
}

/// How many white space characters `s` begins with.
pub open spec fn indent(s: Seq<char>) -> nat
    decreases s.len(),
{
    if s.len() > 0 && is_space(s[0]) {
        1 + indent(s.drop_first())
    } else {
        0
    }
}

/// `s` without its leading white space.
pub open spec fn trim_start(s: Seq<char>) -> Seq<char> {
    s.skip(indent(s) as int)
}

/// `s` without its trailing white space.
pub open spec fn trim_end(s: Seq<char>) -> Seq<char>
    decreases s.len(),
{
    if s.len() > 0 && is_space(s.last()) {
        trim_end(s.drop_last())
    } else {
        s
    }
}

/// `s` without the white space at either end.
pub open spec fn trim(s: Seq<char>) -> Seq<char> {
    trim_end(trim_start(s))
}

/// Whether `s` holds nothing but white space.
pub open spec fn is_blank(s: Seq<char>) -> bool {
    forall|i: int| 0 <= i < s.len() ==> is_space(#[trigger] s[i])
}

/// The indent of `s` ends at its first character that is no white space.
pub proof fn lemma_indent(s: Seq<char>)
    ensures
        indent(s) <= s.len(),
        forall|i: int| 0 <= i < indent(s) ==> is_space(#[trigger] s[i]),
        indent(s) < s.len() ==> !is_space(s[indent(s) as int]),
    decreases s.len(),
{
    if s.len() > 0 && is_space(s[0]) {
        let rest = s.drop_first();
        lemma_indent(rest);
        assert forall|i: int| 0 <= i < indent(s) implies is_space(#[trigger] s[i]) by {
            if i > 0 {
                assert(rest[i - 1] == s[i]);
            }
        }
        if indent(s) < s.len() {
            assert(rest[indent(rest) as int] == s[indent(s) as int]);
        }
    }
}

/// The two conditions that pin the indent down.
pub proof fn lemma_indent_is(s: Seq<char>, n: int)
    requires
        0 <= n <= s.len(),
        forall|i: int| 0 <= i < n ==> is_space(#[trigger] s[i]),
        n < s.len() ==> !is_space(s[n]),
    ensures
        indent(s) == n,
{
    lemma_indent(s);
    if indent(s) < n {
        assert(is_space(s[indent(s) as int]));
    } else if indent(s) > n {
        assert(is_space(s[n]));
    }
}

/// Only blank text trims to nothing.
pub proof fn lemma_blank(s: Seq<char>)
    ensures
        is_blank(s) == (indent(s) == s.len()),
        is_blank(s) == (trim(s).len() == 0),
{
    lemma_indent(s);
    if is_blank(s) {
        lemma_indent_is(s, s.len() as int);
        assert(trim_start(s) =~= Seq::empty());
    } else {
        let t = trim_start(s);
        assert(indent(s) < s.len()) by {
            if indent(s) == s.len() {
                assert(is_blank(s));
            }
        }
        assert(t[0] == s[indent(s) as int]);
        lemma_trim_end(t);
        if trim_end(t).len() == 0 {
            assert(is_space(t[0]));
        }
    }
}

/// `trim_end` takes white space off the end, and all of it.
pub proof fn lemma_trim_end(s: Seq<char>)
    ensures
        trim_end(s).len() <= s.len(),
        trim_end(s) == s.take(trim_end(s).len() as int),
        forall|i: int| trim_end(s).len() <= i < s.len() ==> is_space(#[trigger] s[i]),
        trim_end(s).len() > 0 ==> !is_space(trim_end(s).last()),
    decreases s.len(),
{
    if s.len() > 0 && is_space(s.last()) {
        let front = s.drop_last();
        lemma_trim_end(front);
        let n = trim_end(s).len() as int;
        assert(s.take(n) =~= front.take(n));
        assert forall|i: int| n <= i < s.len() implies is_space(#[trigger] s[i]) by {
            if i < s.len() - 1 {
                assert(front[i] == s[i]);
            }
        }
    } else {
        assert(s.take(s.len() as int) =~= s);
    }
}

/// The characters of `s`.
pub fn to_chars(s: &str) -> (r: Vec<char>)
    ensures
        r@ == s@,
{
    let mut r: Vec<char> = Vec::new();
    for c in it: s.chars()
        invariant
            r@ == s@.take(it.index() as int),
            it.seq() == s@,
    {
        r.push(c);
    }
    r
}

/// Whether two texts are the same.
pub fn same(a: &str, b: &str) -> (r: bool)
    ensures
        r == (a@ == b@),
{
    let x: Vec<char> = to_chars(a);
    let y: Vec<char> = to_chars(b);
    if x.len() != y.len() {
        return false;
    }
    let mut i: usize = 0;
    while i < x.len()
        invariant
            i <= x.len(),
            x.len() == y.len(),
            x@ == a@,
            y@ == b@,
            forall|j: int| 0 <= j < i ==> x@[j] == y@[j],
        decreases x.len() - i,
    {
        if x[i] != y[i] {
            assert(a@[i as int] != b@[i as int]);
            return false;
        }
        i = i + 1;
    }
    assert(a@ =~= b@);
    true
}

/// Lexicographic order by code point.
pub open spec fn precedes(a: Seq<char>, b: Seq<char>) -> bool
    decreases a.len(),
{
    if b.len() == 0 {
        false
    } else if a.len() == 0 {
        true
    } else if a[0] != b[0] {
        (a[0] as int) < (b[0] as int)
    } else {
        precedes(a.drop_first(), b.drop_first())
    }
}

/// Of two different texts, exactly one precedes the other; none precedes itself.
pub proof fn lemma_precedes_total(a: Seq<char>, b: Seq<char>)
    ensures
        precedes(a, b) ==> !precedes(b, a) && a != b,
        precedes(a, b) || precedes(b, a) || a == b,
    decreases a.len(),
{
    if a.len() > 0 && b.len() > 0 && a[0] == b[0] {
        lemma_precedes_total(a.drop_first(), b.drop_first());
        if a.drop_first() == b.drop_first() {
            assert(a =~= seq![a[0]] + a.drop_first());
            assert(b =~= seq![b[0]] + b.drop_first());
            assert(a == b);
        }
    } else if a.len() == 0 && b.len() == 0 {
        assert(a =~= b);
    }
}

/// Precedence is transitive.
pub proof fn lemma_precedes_transitive(a: Seq<char>, b: Seq<char>, c: Seq<char>)
    requires
        precedes(a, b),
        precedes(b, c),
    ensures
        precedes(a, c),
    decreases a.len(),
{
    if a.len() > 0 && a[0] == b[0] && b[0] == c[0] {
        lemma_precedes_transitive(a.drop_first(), b.drop_first(), c.drop_first());
    }
}

/// The code point of `c`.
fn code_point(c: char) -> (u: u32)
    ensures
        u as int == c as int,
{
    c as u32
}

/// Whether `a` precedes `b`.
pub fn is_before(a: &str, b: &str) -> (r: bool)
    ensures
        r == precedes(a@, b@),
{
    let x: Vec<char> = to_chars(a);
    let y: Vec<char> = to_chars(b);
    let mut i: usize = 0;
    assert(x@.skip(0) =~= x@);
    assert(y@.skip(0) =~= y@);
    while i < x.len() && i < y.len()
        invariant
            i <= x.len(),
            i <= y.len(),
            x@ == a@,
            y@ == b@,
            precedes(a@, b@) == precedes(x@.skip(i as int), y@.skip(i as int)),
        decreases x.len() - i,
    {
        if x[i] != y[i] {
            return code_point(x[i]) < code_point(y[i]);
        }
        assert(x@.skip(i as int).drop_first() =~= x@.skip(i + 1));
        assert(y@.skip(i as int).drop_first() =~= y@.skip(i + 1));
        i = i + 1;
    }
    i < y.len()
}

/// The indent of `s`.
fn indent_of(s: &str) -> (n: usize)
    ensures
        n == indent(s@),
        n <= s@.len(),
{
    let chars: Vec<char> = to_chars(s);
    let mut n: usize = 0;
    while n < chars.len() && is_white_space(chars[n])
        invariant
            n <= chars.len(),
            chars@ == s@,
            forall|i: int| 0 <= i < n ==> is_space(#[trigger] s@[i]),
        decreases chars.len() - n,
    {
        n = n + 1;
    }
    proof {
        lemma_indent_is(s@, n as int);
    }
    n
}

/// The leading white space of `line`, and the rest.
pub fn split_indent(line: &str) -> (r: (&str, &str))
    ensures
        r.0@ == line@.take(indent(line@) as int),
        r.1@ == trim_start(line@),
{
    let n: usize = indent_of(line);
    let len: usize = line.unicode_len();
    (line.substring_char(0, n), line.substring_char(n, len))
}

/// `s` without the white space at either end.
pub fn trimmed(s: &str) -> (r: &str)
    ensures
        r@ == trim(s@),
{
    let rest: &str = split_indent(s).1;
    let chars: Vec<char> = to_chars(rest);
    let mut n: usize = chars.len();
    assert(rest@.take(n as int) =~= rest@);
    while n > 0 && is_white_space(chars[n - 1])
        invariant
            n <= chars.len(),
            chars@ == rest@,
            trim_end(rest@) == trim_end(rest@.take(n as int)),
        decreases n,
    {
        assert(rest@.take(n as int).drop_last() =~= rest@.take(n - 1));
        n = n - 1;
    }
    rest.substring_char(0, n)
}

/// Whether `s` begins with `prefix`.
pub fn has_prefix(s: &str, prefix: &str) -> (r: bool)
    ensures
        r == prefix@.is_prefix_of(s@),
{
    let n: usize = prefix.unicode_len();
    if n > s.unicode_len() {
        return false;
    }
    same(s.substring_char(0, n), prefix)
}

/// The pieces of `s` between the occurrences of `sep`: one more than there are occurrences.
pub open spec fn split_on(s: Seq<char>, sep: char) -> Seq<Seq<char>>
    decreases s.len(),
{
    if s.len() == 0 {
        seq![Seq::empty()]
    } else {
        let front = split_on(s.drop_last(), sep);
        if s.last() == sep {
            front.push(Seq::empty())
        } else {
            front.drop_last().push(front.last().push(s.last()))
        }
    }
}

/// `pieces` in order, with `sep` between neighbours.
pub open spec fn join_with(pieces: Seq<Seq<char>>, sep: char) -> Seq<char>
    decreases pieces.len(),
{
    if pieces.len() == 0 {
        Seq::empty()
    } else if pieces.len() == 1 {
        pieces[0]
    } else {
        join_with(pieces.drop_last(), sep).push(sep) + pieces.last()
    }
}

/// A text has at least one piece, and no piece holds the separator.
pub proof fn lemma_split_pieces(s: Seq<char>, sep: char)
    ensures
        split_on(s, sep).len() >= 1,
        forall|i: int, j: int|
            0 <= i < split_on(s, sep).len() && 0 <= j < split_on(s, sep)[i].len()
                ==> #[trigger] split_on(s, sep)[i][j] != sep,
    decreases s.len(),
{
    if s.len() > 0 {
        lemma_split_pieces(s.drop_last(), sep);
    }
}

/// Text free of the separator extends the last piece.
pub proof fn lemma_split_append(s: Seq<char>, tail: Seq<char>, sep: char)
    requires
        forall|j: int| 0 <= j < tail.len() ==> tail[j] != sep,
    ensures
        split_on(s + tail, sep) == split_on(s, sep).drop_last().push(
            split_on(s, sep).last() + tail,
        ),
    decreases tail.len(),
{
    lemma_split_pieces(s, sep);
    let front = split_on(s, sep);
    if tail.len() == 0 {
        assert(s + tail =~= s);
        assert(front.last() + tail =~= front.last());
        assert(front =~= front.drop_last().push(front.last()));
    } else {
        lemma_split_append(s, tail.drop_last(), sep);
        assert((s + tail).drop_last() =~= s + tail.drop_last());
        assert((front.last() + tail.drop_last()).push(tail.last()) =~= front.last() + tail);
        let mid = front.drop_last().push(front.last() + tail.drop_last());
        assert(mid.drop_last() =~= front.drop_last());
    }
}

/// Splitting undoes joining, where no piece holds the separator.
pub proof fn lemma_split_join(pieces: Seq<Seq<char>>, sep: char)
    requires
        pieces.len() >= 1,
        forall|i: int, j: int|
            0 <= i < pieces.len() && 0 <= j < pieces[i].len() ==> #[trigger] pieces[i][j] != sep,
    ensures
        split_on(join_with(pieces, sep), sep) == pieces,
    decreases pieces.len(),
{
    if pieces.len() == 1 {
        lemma_split_append(Seq::empty(), pieces[0], sep);
        assert(Seq::<char>::empty() + pieces[0] =~= pieces[0]);
        assert(split_on(pieces[0], sep) =~= pieces);
    } else {
        let front = pieces.drop_last();
        assert forall|i: int, j: int|
            0 <= i < front.len() && 0 <= j < front[i].len() implies #[trigger] front[i][j]
            != sep by {
            assert(front[i] == pieces[i]);
        }
        lemma_split_join(front, sep);
        let head = join_with(front, sep).push(sep);
        assert(head.drop_last() =~= join_with(front, sep));
        lemma_split_append(head, pieces.last(), sep);
        assert(split_on(head, sep) == front.push(Seq::empty()));
        assert(front.push(Seq::<char>::empty()).drop_last() =~= front);
        assert(Seq::<char>::empty() + pieces.last() =~= pieces.last());
        assert(front.push(pieces.last()) =~= pieces);
    }
}

/// The text in `o`, if any.
pub open spec fn opt(o: Option<String>) -> Option<Seq<char>> {
    match o {
        Some(s) => Some(s@),
        None => None,
    }
}

/// The texts of a list of owned strings.
pub open spec fn texts(v: Seq<String>) -> Seq<Seq<char>> {
    v.map_values(|s: String| s@)
}

/// `n` in decimal.
pub open spec fn decimal(n: nat) -> Seq<char>
    decreases n,
{
    let last = ('0' as int + n % 10) as char;
    if n < 10 {
        seq![last]
    } else {
        decimal(n / 10).push(last)
    }
}

/// `n` in decimal.
pub fn in_decimal(n: usize) -> (r: String)
    ensures
        r@ == decimal(n as nat),
    decreases n,
{
    let digit: &str = match n % 10 {
        0 => "0",
        1 => "1",
        2 => "2",
        3 => "3",
        4 => "4",
        5 => "5",
        6 => "6",
        7 => "7",
        8 => "8",
        _ => "9",
    };
    proof {
        reveal_strlit("0");
        reveal_strlit("1");
        reveal_strlit("2");
        reveal_strlit("3");
        reveal_strlit("4");
        reveal_strlit("5");
        reveal_strlit("6");
        reveal_strlit("7");
        reveal_strlit("8");
        reveal_strlit("9");
    }
    let ghost last = ('0' as int + n % 10) as char;
    assert(digit@ =~= seq![last]);
    if n < 10 {
        digit.to_owned()
    } else {
        let front: String = in_decimal(n / 10);
        assert(front@ + digit@ =~= front@.push(last));
        front.concat(digit)
    }
}

/// A copy of an optional text.
pub fn copy_opt(o: &Option<String>) -> (r: Option<String>)
    ensures
        opt(r) == opt(*o),
{
    match o {
        Some(s) => Some(s.clone()),
        None => None,
    }
}

/// A copy of a list of texts.
pub fn copy_all(v: &Vec<String>) -> (r: Vec<String>)
    ensures
        texts(r@) == texts(v@),
{
    let r: Vec<String> = v.clone();
    assert(texts(r@) =~= texts(v@));
    r
}

/// The texts of a list of string slices.
pub open spec fn views(v: Seq<&str>) -> Seq<Seq<char>> {
    v.map_values(|s: &str| s@)
}

/// The lines of `s`.
pub fn lines_of(s: &str) -> (r: Vec<&str>)
    ensures
        views(r@) == split_on(s@, '\n'),
{
    let chars: Vec<char> = to_chars(s);
    let mut r: Vec<&str> = Vec::new();
    let mut start: usize = 0;
    let mut i: usize = 0;
    assert(s@.subrange(0, 0) =~= Seq::empty());
    assert(split_on(s@.take(0), '\n') =~= views(r@).push(s@.subrange(0, 0)));
    while i < chars.len()
        invariant
            start <= i <= chars.len(),
            chars@ == s@,
            split_on(s@.take(i as int), '\n') == views(r@).push(s@.subrange(start as int, i as int)),
        decreases chars.len() - i,
    {
        let ghost before = views(r@);
        assert(s@.take(i + 1).drop_last() =~= s@.take(i as int));
        assert(before.push(s@.subrange(start as int, i as int)).drop_last() =~= before);
        if chars[i] == '\n' {
            r.push(s.substring_char(start, i));
            assert(views(r@) =~= before.push(s@.subrange(start as int, i as int)));
            start = i + 1;
            assert(s@.subrange(i + 1, i + 1) =~= Seq::empty());
        } else {
            assert(s@.subrange(start as int, i as int).push(s@[i as int]) =~= s@.subrange(
                start as int,
                i + 1,
            ));
        }
        i = i + 1;
    }
    assert(s@.take(i as int) =~= s@);
    let ghost before = views(r@);
    r.push(s.substring_char(start, i));
    assert(views(r@) =~= before.push(s@.subrange(start as int, i as int)));
    r
}

/// What leading white space is: the text divides into white space and a rest that
/// does not begin with any.
pub proof fn law_indent_divides(space: Seq<char>, rest: Seq<char>)
    requires
        forall|i: int| 0 <= i < space.len() ==> is_space(#[trigger] space[i]),
        rest.len() > 0 ==> !is_space(rest[0]),
    ensures
        indent(space + rest) == space.len(),
        trim_start(space + rest) == rest,
{
    let s = space + rest;
    assert forall|i: int| 0 <= i < space.len() implies is_space(#[trigger] s[i]) by {
        assert(s[i] == space[i]);
    }
    if rest.len() > 0 {
        assert(s[space.len() as int] == rest[0]);
    }
    lemma_indent_is(s, space.len() as int);
    assert(trim_start(s) =~= rest);
}

/// What trimming is: white space goes from both ends, and nothing else.
pub proof fn law_trim_divides(before: Seq<char>, core: Seq<char>, after: Seq<char>)
    requires
        forall|i: int| 0 <= i < before.len() ==> is_space(#[trigger] before[i]),
        forall|i: int| 0 <= i < after.len() ==> is_space(#[trigger] after[i]),
        core.len() > 0 ==> !is_space(core[0]) && !is_space(core.last()),
    ensures
        trim(before + core + after) == core,
{
    let s = before + core + after;
    if core.len() > 0 {
        let rest = core + after;
        assert(s =~= before + rest);
        assert(rest[0] == core[0]);
        law_indent_divides(before, rest);
        lemma_trim_end(rest);
        let n = trim_end(rest).len() as int;
        if n < core.len() {
            assert(rest[core.len() - 1] == core.last());
        } else if n > core.len() {
            assert(trim_end(rest).last() == rest[n - 1]);
            assert(rest[n - 1] == after[n - 1 - core.len()]);
        }
        assert(rest.take(core.len() as int) =~= core);
    } else {
        assert forall|i: int| 0 <= i < s.len() implies is_space(#[trigger] s[i]) by {
            if i < before.len() {
                assert(s[i] == before[i]);
            } else {
                assert(s[i] == after[i - before.len()]);
            }
        }
        lemma_blank(s);
        assert(trim(s) =~= core);
    }
}

/// A text is blank where every character of it is white space.
pub proof fn law_blank(s: Seq<char>)
    ensures
        is_blank(s) <==> forall|i: int| 0 <= i < s.len() ==> is_space(#[trigger] s[i]),
{
}

/// What the order of texts is: the first difference decides, and a text comes
/// before every longer one that it begins.
pub proof fn law_first_difference_decides(common: Seq<char>, a: Seq<char>, b: Seq<char>)
    requires
        a.len() > 0 && b.len() > 0 ==> a[0] != b[0],
    ensures
        precedes(common + a, common + b) <==> b.len() > 0 && (a.len() == 0 || (a[0] as int) < (
        b[0] as int)),
    decreases common.len(),
{
    let x = common + a;
    let y = common + b;
    if common.len() > 0 {
        assert(x.drop_first() =~= common.drop_first() + a);
        assert(y.drop_first() =~= common.drop_first() + b);
        assert(x[0] == y[0]);
        law_first_difference_decides(common.drop_first(), a, b);
    } else {
        assert(x =~= a);
        assert(y =~= b);
    }
}

/// Joining undoes splitting, no piece holds the separator, and there is always a
/// piece: together with what joining is, that is what splitting is.
pub proof fn law_splitting(s: Seq<char>, sep: char)
    ensures
        join_with(split_on(s, sep), sep) == s,
        split_on(s, sep).len() >= 1,
        forall|i: int, j: int|
            0 <= i < split_on(s, sep).len() && 0 <= j < split_on(s, sep)[i].len()
                ==> #[trigger] split_on(s, sep)[i][j] != sep,
    decreases s.len(),
{
    lemma_split_pieces(s, sep);
    if s.len() > 0 {
        let front = split_on(s.drop_last(), sep);
        law_splitting(s.drop_last(), sep);
        assert(s =~= s.drop_last().push(s.last()));
        if s.last() == sep {
            assert(front.push(Seq::empty()).drop_last() =~= front);
            assert(join_with(split_on(s, sep), sep) =~= s);
        } else {
            let longer = front.drop_last().push(front.last().push(s.last()));
            assert(longer.drop_last() =~= front.drop_last());
            assert(join_with(longer, sep) =~= s);
        }
    }
}

/// What joining is: a single piece is itself, and another one comes behind a
/// separator.
pub proof fn law_joining(pieces: Seq<Seq<char>>, piece: Seq<char>, sep: char)
    ensures
        join_with(seq![piece], sep) == piece,
        pieces.len() > 0 ==> join_with(pieces.push(piece), sep) == join_with(pieces, sep) + seq![
            sep,
        ] + piece,
{
    if pieces.len() > 0 {
        assert(pieces.push(piece).drop_last() =~= pieces);
        assert(join_with(pieces, sep).push(sep) + piece =~= join_with(pieces, sep) + seq![sep]
            + piece);
    }
}

/// The number that decimal digits stand for.
pub open spec fn value_of(digits: Seq<char>) -> int
    decreases digits.len(),
{
    if digits.len() == 0 {
        0
    } else {
        10 * value_of(digits.drop_last()) + (digits.last() as int - '0' as int)
    }
}

/// A number in decimal has the value that it stands for, in digits alone, and does
/// not begin with a zero unless it is zero.
pub proof fn law_decimal(n: nat)
    ensures
        value_of(decimal(n)) == n,
        decimal(n).len() > 0,
        forall|i: int| 0 <= i < decimal(n).len() ==> '0' <= #[trigger] decimal(n)[i] <= '9',
        n > 0 ==> decimal(n)[0] != '0',
        n == 0 ==> decimal(n).len() == 1,
    decreases n,
{
    reveal_with_fuel(value_of, 2);
    if n >= 10 {
        law_decimal(n / 10);
        assert(decimal(n).drop_last() =~= decimal(n / 10));
    } else {
        assert(decimal(n).drop_last() =~= Seq::empty());
    }
}

} // verus!
