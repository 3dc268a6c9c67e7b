//! Text handling: trimming, joining and reading numbers.
use crate::session;
use vstd::prelude::*;
use vstd::string::*;

verus! {

/// The characters that Unicode calls white space.
pub open spec fn is_space(c: char) -> bool {
    let n = c as u32;
    ||| 0x9 <= n <= 0xd
    ||| n == 0x20
    ||| n == 0x85
    ||| n == 0xa0
    ||| n == 0x1680
    ||| 0x2000 <= n <= 0x200a
    ||| n == 0x2028
    ||| n == 0x2029
    ||| n == 0x202f
    ||| n == 0x205f
    ||| n == 0x3000
}

/// `s` without the white space that it starts with.
pub open spec fn trim_start(s: Seq<char>) -> Seq<char>
    decreases s.len(),
{
    if s.len() > 0 && is_space(s.first()) {
        trim_start(s.drop_first())
    } else {
        s
    }
}

/// `s` without the white space that it ends with.
pub open spec fn trim_end(s: Seq<char>) -> Seq<char>
    decreases s.len(),
{
    if s.len() > 0 && is_space(s.last()) {
        trim_end(s.drop_last())
    } else {
        s
    }
}

/// `s` without white space at either end.
pub open spec fn trimmed(s: Seq<char>) -> Seq<char> {
    trim_end(trim_start(s))
}

/// Says whether `c` is white space.
pub fn is_whitespace(c: char) -> (r: bool)
    ensures
        r == is_space(c),
{
    let n: u32 = c as u32;
    (0x9 <= n && n <= 0xd) || n == 0x20 || n == 0x85 || n == 0xa0 || n == 0x1680 || (0x2000 <= n
        && n <= 0x200a) || n == 0x2028 || n == 0x2029 || n == 0x202f || n == 0x205f || n == 0x3000
}

/// Strips white space from both ends.
pub fn trim(s: &str) -> (r: String)
    ensures
        r@ == trimmed(s@),
{
    let n: usize = s.unicode_len();
    let mut i: usize = 0;
    assert(s@.subrange(0, n as int) =~= s@);
    while i < n && is_whitespace(s.get_char(i))
        invariant
            i <= n,
            n == s@.len(),
            trim_start(s@) == trim_start(s@.subrange(i as int, n as int)),
        decreases n - i,
    {
        proof {
            let rest = s@.subrange(i as int, n as int);
            assert(rest.drop_first() =~= s@.subrange(i + 1, n as int));
        }
        i = i + 1;
    }
    let mut j: usize = n;
    while j > i && is_whitespace(s.get_char(j - 1))
        invariant
            i <= j <= n,
            n == s@.len(),
            trim_end(s@.subrange(i as int, n as int)) == trim_end(s@.subrange(i as int, j as int)),
        decreases j,
    {
        proof {
            let rest = s@.subrange(i as int, j as int);
            assert(rest.drop_last() =~= s@.subrange(i as int, j - 1));
        }
        j = j - 1;
    }
    s.substring_char(i, j).to_owned()
}

/// The segments one after the other.
pub open spec fn concatenated(segments: Seq<Seq<char>>) -> Seq<char>
    decreases segments.len(),
{
    if segments.len() == 0 {
        Seq::empty()
    } else {
        concatenated(segments.drop_last()) + segments.last()
    }
}

/// The text of each string of a list.
pub open spec fn texts(v: Seq<String>) -> Seq<Seq<char>> {
    v.map_values(|s: String| s@)
}

/// The transcript that a recogniser's segments make: their texts in order,
/// without white space at either end.
pub fn transcript(segments: &Vec<String>) -> (r: String)
    ensures
        r@ == trimmed(concatenated(texts(segments@))),
{
    let mut all: String = String::new();
    let mut i: usize = 0;
    while i < segments.len()
        invariant
            i <= segments@.len(),
            all@ == concatenated(texts(segments@.take(i as int))),
        decreases segments@.len() - i,
    {
        proof {
            let t = texts(segments@.take(i + 1));
            assert(t.drop_last() =~= texts(segments@.take(i as int)));
            assert(t.last() == segments@[i as int]@);
        }
        all.append(segments[i].as_str());
        i = i + 1;
    }
    assert(segments@.take(segments@.len() as int) =~= segments@);
    trim(all.as_str())
}

/// The text of each segment of a list, empty for one that could not be read.
pub open spec fn read_texts(segments: Seq<Result<String, String>>) -> Seq<Seq<char>> {
    segments.map_values(
        |s: Result<String, String>|
            match s {
                Ok(t) => t@,
                Err(_) => Seq::<char>::empty(),
            },
    )
}

/// Every segment could be read.
pub open spec fn all_read(segments: Seq<Result<String, String>>) -> bool {
    forall|i: int| 0 <= i < segments.len() ==> (#[trigger] segments[i]) is Ok
}

/// Segment `i` could not be read, for the reason `e`, and those before it could.
pub open spec fn is_first_error(
    segments: Seq<Result<String, String>>,
    i: int,
    e: Seq<char>,
) -> bool {
    &&& 0 <= i < segments.len()
    &&& segments[i] matches Err(m) && m@ == e
    &&& forall|j: int| 0 <= j < i ==> (#[trigger] segments[j]) is Ok
}

/// `r` is the transcript that segments make, or why they make none: all of them
/// can be read and `r` is their texts in order, without white space at either
/// end; or `r` is the error of the first that cannot be read.
pub open spec fn is_transcript(
    segments: Seq<Result<String, String>>,
    r: Result<Seq<char>, Seq<char>>,
) -> bool {
    &&& r is Ok <==> all_read(segments)
    &&& r matches Ok(t) ==> t == trimmed(concatenated(read_texts(segments)))
    &&& r matches Err(e) ==> exists|i: int| is_first_error(segments, i, e)
}

/// The first error is what the segments make.
proof fn lemma_first_error(segments: Seq<Result<String, String>>, i: int, e: Seq<char>)
    requires
        is_first_error(segments, i, e),
    ensures
        is_transcript(segments, Err::<Seq<char>, Seq<char>>(e)),
{
    assert(!(segments[i] is Ok));
    let r = Err::<Seq<char>, Seq<char>>(e);
    assert(is_first_error(segments, i, r->Err_0));
}

/// The transcript that a recogniser's segments make, each of which may have
/// turned out unreadable.
pub fn transcript_of(segments: Vec<Result<String, String>>) -> (r: Result<String, String>)
    ensures
        is_transcript(segments@, session::answer(r)),
{
    let mut readable: Vec<String> = Vec::new();
    let mut i: usize = 0;
    while i < segments.len()
        invariant
            i <= segments@.len(),
            readable@.len() == i,
            forall|j: int| 0 <= j < i ==> (#[trigger] segments@[j]) is Ok,
            texts(readable@) == read_texts(segments@.take(i as int)),
        decreases segments@.len() - i,
    {
        match &segments[i] {
            Ok(t) => {
                let ghost before = readable@;
                readable.push(t.clone());
                proof {
                    let now = segments@.take(i + 1);
                    assert(read_texts(now).drop_last() =~= read_texts(segments@.take(i as int)));
                    assert(texts(readable@).drop_last() =~= texts(before));
                    assert(texts(readable@).last() == read_texts(now).last());
                    assert(texts(readable@) =~= texts(readable@).drop_last().push(
                        texts(readable@).last(),
                    ));
                    assert(read_texts(now) =~= read_texts(now).drop_last().push(
                        read_texts(now).last(),
                    ));
                }
            },
            Err(e) => {
                let message: String = e.clone();
                proof {
                    lemma_first_error(segments@, i as int, message@);
                }
                return Err(message);
            },
        }
        i = i + 1;
    }
    assert(segments@.take(i as int) =~= segments@);
    Ok(transcript(&readable))
}

/// A transcript is never partial: one segment that cannot be read makes all of
/// it an error, and what comes out otherwise has no white space to trim.
pub proof fn transcript_is_whole(
    segments: Seq<Result<String, String>>,
    r: Result<Seq<char>, Seq<char>>,
)
    requires
        is_transcript(segments, r),
    ensures
        (exists|i: int| 0 <= i < segments.len() && (#[trigger] segments[i]) is Err) <==> r is Err,
        r matches Ok(t) ==> trimmed(t) == t,
{
    trimming_twice_is_trimming_once(concatenated(read_texts(segments)));
    if r is Err {
        let e = r->Err_0;
        let i = choose|i: int| is_first_error(segments, i, e);
        assert(segments[i] is Err);
    }
}

/// The same segments make the same transcript, whichever recogniser gave them.
pub proof fn transcript_is_unique(
    segments: Seq<Result<String, String>>,
    a: Result<Seq<char>, Seq<char>>,
    b: Result<Seq<char>, Seq<char>>,
)
    requires
        is_transcript(segments, a),
        is_transcript(segments, b),
    ensures
        a == b,
{
    if a is Err {
        let i = choose|i: int| is_first_error(segments, i, a->Err_0);
        let j = choose|j: int| is_first_error(segments, j, b->Err_0);
        assert(segments[i] is Err && segments[j] is Err);
        assert(i == j);
    }
}

/// `a`, then `b`.
pub fn join(a: &str, b: &str) -> (r: String)
    ensures
        r@ == a@ + b@,
{
    let mut r: String = a.to_owned();
    r.append(b);
    r
}

/// The number that a row of decimal digits stands for.
pub open spec fn digits_value(s: Seq<char>) -> nat
    decreases s.len(),
{
    if s.len() == 0 {
        0
    } else {
        10 * digits_value(s.drop_last()) + (s.last() as u32 - 0x30) as nat
    }
}

/// All characters are decimal digits.
pub open spec fn all_digits(s: Seq<char>) -> bool {
    forall|i: int| 0 <= i < s.len() ==> 0x30 <= #[trigger] s[i] as u32 <= 0x39
}

/// A number as HTTP headers write it: digits, perhaps after a plus sign, that
/// stand for a value of at most 64 bits. Nothing else is read.
pub open spec fn number(s: Seq<char>) -> Option<u64> {
    let digits = if s.len() > 0 && s.first() == '+' {
        s.drop_first()
    } else {
        s
    };
    if digits.len() > 0 && all_digits(digits) && digits_value(digits) <= u64::MAX {
        Some(digits_value(digits) as u64)
    } else {
        None
    }
}

/// More digits never make a number smaller.
proof fn lemma_digits_grow(s: Seq<char>, k: int)
    requires
        0 <= k <= s.len(),
    ensures
        digits_value(s.take(k)) <= digits_value(s),
    decreases s.len() - k,
{
    if k < s.len() {
        lemma_digits_grow(s, k + 1);
        assert(s.take(k + 1).drop_last() =~= s.take(k));
    } else {
        assert(s.take(k) =~= s);
    }
}

/// Reads a decimal number.
pub fn parse_number(s: &str) -> (r: Option<u64>)
    ensures
        r == number(s@),
{
    let n: usize = s.unicode_len();
    let start: usize = if n > 0 && s.get_char(0) == '+' {
        1
    } else {
        0
    };
    let ghost digits = if s@.len() > 0 && s@.first() == '+' {
        s@.drop_first()
    } else {
        s@
    };
    assert(digits =~= s@.skip(start as int));
    if start == n {
        return None;
    }
    let mut value: u64 = 0;
    let mut i: usize = start;
    while i < n
        invariant
            start <= i <= n,
            n == s@.len(),
            digits == s@.skip(start as int),
            value == digits_value(digits.take(i - start)),
            forall|j: int| 0 <= j < i - start ==> 0x30 <= #[trigger] digits[j] as u32 <= 0x39,
            number(s@) == (if digits.len() > 0 && all_digits(digits) && digits_value(digits)
                <= u64::MAX {
                Some(digits_value(digits) as u64)
            } else {
                None
            }),
        decreases n - i,
    {
        let c: u32 = s.get_char(i) as u32;
        proof {
            assert(digits[i - start] == s@[i as int]);
            assert(digits.take(i - start + 1).drop_last() =~= digits.take(i - start));
            lemma_digits_grow(digits, i - start + 1);
        }
        if c < 0x30 || c > 0x39 {
            return None;
        }
        let d: u64 = (c - 0x30) as u64;
        if value > (u64::MAX - d) / 10 {
            return None;
        }
        value = value * 10 + d;
        i = i + 1;
    }
    assert(digits.take(n - start) =~= digits);
    Some(value)
}

/// Trimmed text neither starts nor ends with white space.
pub proof fn trimmed_has_no_outer_space(s: Seq<char>)
    ensures
        trimmed(s).len() > 0 ==> !is_space(trimmed(s).first()) && !is_space(trimmed(s).last()),
{
    lemma_trim_start_first(s);
    lemma_trim_end_last(trim_start(s));
    lemma_trim_end_prefix(trim_start(s));
}

/// Trimming trimmed text changes nothing.
pub proof fn trimming_twice_is_trimming_once(s: Seq<char>)
    ensures
        trimmed(trimmed(s)) == trimmed(s),
{
    trimmed_has_no_outer_space(s);
}

proof fn lemma_trim_start_first(s: Seq<char>)
    ensures
        trim_start(s).len() > 0 ==> !is_space(trim_start(s).first()),
    decreases s.len(),
{
    if s.len() > 0 && is_space(s.first()) {
        lemma_trim_start_first(s.drop_first());
    }
}

proof fn lemma_trim_end_last(s: Seq<char>)
    ensures
        trim_end(s).len() > 0 ==> !is_space(trim_end(s).last()),
    decreases s.len(),
{
    if s.len() > 0 && is_space(s.last()) {
        lemma_trim_end_last(s.drop_last());
    }
}

proof fn lemma_trim_end_prefix(s: Seq<char>)
    ensures
        trim_end(s).len() <= s.len(),
        trim_end(s) == s.take(trim_end(s).len() as int),
    decreases s.len(),
{
    if s.len() > 0 && is_space(s.last()) {
        lemma_trim_end_prefix(s.drop_last());
        assert(s.drop_last().take(trim_end(s).len() as int) =~= s.take(trim_end(s).len() as int));
    } else {
        assert(s.take(s.len() as int) =~= s);
    }
}

/// Trimming removes white space and nothing else: what is left is one stretch of
/// the text, and all that lay before and behind it is white space.
pub proof fn trimming_removes_white_space_only(s: Seq<char>)
    ensures
        exists|i: int, j: int|
            0 <= i <= j <= s.len() && trimmed(s) == #[trigger] s.subrange(i, j) && (forall|k: int|
                0 <= k < i ==> is_space(#[trigger] s[k])) && (forall|k: int|
                j <= k < s.len() ==> is_space(#[trigger] s[k])),
{
    let i = lemma_trim_start_cut(s);
    let t = trim_start(s);
    let m = lemma_trim_end_cut(t);
    let j = i + m;
    assert(trimmed(s) =~= s.subrange(i, j));
    assert forall|k: int| j <= k < s.len() implies is_space(#[trigger] s[k]) by {
        assert(t[k - i] == s[k]);
    }
}

/// Where trimming at the front stops.
proof fn lemma_trim_start_cut(s: Seq<char>) -> (i: int)
    ensures
        0 <= i <= s.len(),
        trim_start(s) == s.subrange(i, s.len() as int),
        forall|k: int| 0 <= k < i ==> is_space(#[trigger] s[k]),
    decreases s.len(),
{
    if s.len() > 0 && is_space(s.first()) {
        let rest = s.drop_first();
        let i = lemma_trim_start_cut(rest);
        assert(rest.subrange(i, rest.len() as int) =~= s.subrange(i + 1, s.len() as int));
        assert forall|k: int| 0 <= k < i + 1 implies is_space(#[trigger] s[k]) by {
            if k > 0 {
                assert(rest[k - 1] == s[k]);
            }
        }
        i + 1
    } else {
        assert(s.subrange(0, s.len() as int) =~= s);
        0
    }
}

/// Where trimming at the end stops.
proof fn lemma_trim_end_cut(s: Seq<char>) -> (j: int)
    ensures
        0 <= j <= s.len(),
        trim_end(s) == s.subrange(0, j),
        forall|k: int| j <= k < s.len() ==> is_space(#[trigger] s[k]),
    decreases s.len(),
{
    if s.len() > 0 && is_space(s.last()) {
        let rest = s.drop_last();
        let j = lemma_trim_end_cut(rest);
        assert(rest.subrange(0, j) =~= s.subrange(0, j));
        assert forall|k: int| j <= k < s.len() implies is_space(#[trigger] s[k]) by {
            if k < rest.len() {
                assert(rest[k] == s[k]);
            }
        }
        j
    } else {
        assert(s.subrange(0, s.len() as int) =~= s);
        s.len() as int
    }
}

/// Text that neither starts nor ends with white space is left alone, whatever
/// it holds and whatever white space stands around it.
pub proof fn trimming_finds_the_text(before: Seq<char>, s: Seq<char>, after: Seq<char>)
    requires
        forall|k: int| 0 <= k < before.len() ==> is_space(#[trigger] before[k]),
        forall|k: int| 0 <= k < after.len() ==> is_space(#[trigger] after[k]),
        s.len() > 0,
        !is_space(s.first()),
        !is_space(s.last()),
    ensures
        trimmed(before + s + after) == s,
    decreases before.len(), after.len(),
{
    let all = before + s + after;
    if before.len() > 0 {
        assert(all.first() == before[0]);
        assert(all.drop_first() =~= before.drop_first() + s + after);
        assert forall|k: int| 0 <= k < before.drop_first().len() implies is_space(
            #[trigger] before.drop_first()[k],
        ) by {
            assert(before.drop_first()[k] == before[k + 1]);
        }
        trimming_finds_the_text(before.drop_first(), s, after);
    } else {
        assert(all.first() == s.first());
        assert(trim_start(all) == all);
        if after.len() > 0 {
            assert(all.last() == after[after.len() - 1]);
            let rest = before + s + after.drop_last();
            assert(all.drop_last() =~= rest);
            assert(rest.first() == s.first());
            assert forall|k: int| 0 <= k < after.drop_last().len() implies is_space(
                #[trigger] after.drop_last()[k],
            ) by {
                assert(after.drop_last()[k] == after[k]);
            }
            trimming_finds_the_text(before, s, after.drop_last());
            assert(trim_start(rest) == rest);
        } else {
            assert(all =~= s);
        }
    }
}

/// Segments are put together in order, with nothing added, dropped or changed:
/// what a list of them makes is what its first part makes and then what the rest
/// makes, and one segment makes its own text.
pub proof fn segments_are_joined_in_order(a: Seq<Seq<char>>, b: Seq<Seq<char>>, t: Seq<char>)
    ensures
        concatenated(a + b) == concatenated(a) + concatenated(b),
        concatenated(seq![t]) == t,
        concatenated(Seq::<Seq<char>>::empty()) == Seq::<char>::empty(),
    decreases b.len(),
{
    assert(seq![t].drop_last() =~= Seq::<Seq<char>>::empty());
    reveal_with_fuel(concatenated, 2);
    assert(concatenated(Seq::<Seq<char>>::empty()) == Seq::<char>::empty());
    assert(seq![t].last() == t);
    assert(concatenated(seq![t]) =~= t);
    if b.len() == 0 {
        assert(a + b =~= a);
        assert(concatenated(a) + concatenated(b) =~= concatenated(a));
    } else {
        assert((a + b).drop_last() =~= a + b.drop_last());
        segments_are_joined_in_order(a, b.drop_last(), t);
        assert(concatenated(a + b) =~= concatenated(a) + concatenated(b));
    }
}

/// The texts of a list are those of its entries, one for one.
pub proof fn texts_are_those_of_the_entries(
    v: Seq<String>,
    segments: Seq<Result<String, String>>,
    i: int,
)
    ensures
        texts(v).len() == v.len(),
        0 <= i < v.len() ==> texts(v)[i] == v[i]@,
        read_texts(segments).len() == segments.len(),
        0 <= i < segments.len() ==> (segments[i] matches Ok(t) ==> read_texts(segments)[i] == t@),
{
}

/// What readable segments make holds all their texts in order but for white
/// space at either end; what segments of which one cannot be read make is the
/// message of the first such.
pub proof fn transcript_holds_all_text(
    segments: Seq<Result<String, String>>,
    r: Result<Seq<char>, Seq<char>>,
    n: int,
    m: String,
)
    requires
        is_transcript(segments, r),
    ensures
        r matches Ok(t) ==> ({
            let all = concatenated(read_texts(segments));
            exists|i: int, j: int|
                0 <= i <= j <= all.len() && t == #[trigger] all.subrange(i, j) && (forall|k: int|
                    0 <= k < i ==> is_space(#[trigger] all[k])) && (forall|k: int|
                    j <= k < all.len() ==> is_space(#[trigger] all[k]))
        }),
        0 <= n < segments.len() && segments[n] == Err::<String, String>(m) && (forall|k: int|
            0 <= k < n ==> (#[trigger] segments[k]) is Ok) ==> r == Err::<Seq<char>, Seq<char>>(m@),
{
    trimming_removes_white_space_only(concatenated(read_texts(segments)));
    if 0 <= n < segments.len() && segments[n] == Err::<String, String>(m) && (forall|k: int|
        0 <= k < n ==> (#[trigger] segments[k]) is Ok) {
        lemma_first_error(segments, n, m@);
        transcript_is_unique(segments, r, Err::<Seq<char>, Seq<char>>(m@));
    }
}

/// Numbers are decimal. A digit stands for its value, a further digit behind a
/// number multiplies it by ten and is added, a plus sign in front changes
/// nothing, and a number that is too large stays none; nothing that holds
/// another character is a number, and neither is a text without digits.
pub proof fn numbers_are_decimal(s: Seq<char>, c: char)
    ensures
        number(Seq::<char>::empty()) is None,
        !('0' <= c <= '9') ==> number(s.push(c)) is None,
        '0' <= c <= '9' ==> number(seq![c]) == Some((c as u64 - '0' as u64) as u64),
        '0' <= c <= '9' ==> number(seq!['+', c]) == Some((c as u64 - '0' as u64) as u64),
        '0' <= c <= '9' && s.len() > 0 && s != seq!['+'] ==> number(s.push(c)) == (match number(s) {
            Some(n) => if 10 * n + (c as u64 - '0' as u64) <= u64::MAX {
                Some((10 * n + (c as u64 - '0' as u64)) as u64)
            } else {
                None
            },
            None => None,
        }),
{
    reveal_with_fuel(digits_value, 2);
    assert(seq![c].drop_last() =~= Seq::<char>::empty());
    assert(seq!['+', c].drop_first() =~= seq![c]);
    assert(seq![c][0] == c);
    let t = s.push(c);
    let d = if t.first() == '+' {
        t.drop_first()
    } else {
        t
    };
    if d.len() > 0 {
        assert(d.last() == c);
        assert(d[d.len() - 1] == c);
    }
    if '0' <= c <= '9' && s.len() > 0 && s != seq!['+'] {
        let e = if s.first() == '+' {
            s.drop_first()
        } else {
            s
        };
        assert(t.first() == s.first());
        assert(d =~= e.push(c));
        assert(d.drop_last() =~= e);
        if e.len() == 0 {
            assert(s =~= seq!['+']);
        }
        if all_digits(d) {
            assert forall|i: int| 0 <= i < e.len() implies 0x30 <= #[trigger] e[i] as u32 <= 0x39 by {
                assert(d[i] == e[i]);
            }
        }
        if all_digits(e) {
            assert forall|i: int| 0 <= i < d.len() implies 0x30 <= #[trigger] d[i] as u32 <= 0x39 by {
                if i < e.len() {
                    assert(d[i] == e[i]);
                }
            }
        }
    }
}

} // verus!
