//! Decoding a changeset payload: its tag byte, its text, and the fields
//! that the text holds.
use vstd::prelude::*;
use vstd::utf8::{decode_utf8, valid_utf8};
use crate::error::RevlogError;

verus! {

broadcast use vstd::string::axiom_spec_iter;

/// A changeset's date: seconds since the Unix epoch, and the offset from
/// UTC in seconds.
#[derive(Debug, Clone, Copy, PartialEq, Eq, Structural)]
pub struct DateStamp {
    pub timestamp: i64,
    pub utc_offset: i32,
}

/// The metadata of one commit, decoded from one payload.
#[derive(Debug)]
pub struct Changeset {
    pub data: Vec<u8>,
    pub files: Vec<String>,
    pub hash: Option<String>,
    pub author: Option<String>,
    pub when: Option<DateStamp>,
    pub message: Option<String>,
}

/// What zlib decompression makes of `b`, or `None` where `b` is not a
/// complete zlib stream.
pub uninterp spec fn zlib_inflated(b: Seq<u8>) -> Option<Seq<u8>>;

/// Relies on flate2::bufread::ZlibDecoder: reading it to the end yields the
/// decompressed bytes of the zlib stream `data`, or an error.
#[verifier::external_body]
fn inflate(data: &[u8]) -> (r: Option<Vec<u8>>)
    ensures
        r matches Some(v) ==> zlib_inflated(data@) == Some(v@),
        r is None ==> zlib_inflated(data@) is None,
{
    let mut out = Vec::new();
    match std::io::Read::read_to_end(&mut flate2::bufread::ZlibDecoder::new(data), &mut out) {
        Ok(_) => Some(out),
        Err(_) => None,
    }
}

/// Relies on String::from_utf8: the bytes become text exactly when they
/// are valid UTF-8.
#[verifier::external_body]
fn utf8_text(b: Vec<u8>) -> (r: Option<String>)
    ensures
        r is Some <==> valid_utf8(b@),
        r matches Some(s) ==> s@ == decode_utf8(b@),
{
    String::from_utf8(b).ok()
}

/// Relies on String::push: appends one character.
#[verifier::external_body]
fn push_char(s: &mut String, c: char)
    ensures
        final(s)@ == old(s)@.push(c),
{
    s.push(c)
}

/// The text that a payload holds, chosen by its first byte: `0` for an
/// empty changeset, `x` for a zlib stream (the tag byte is part of it),
/// `u` for UTF-8 text after the tag.
pub open spec fn spec_payload_text(data: Seq<u8>) -> Result<Seq<char>, RevlogError> {
    if data.len() == 0 {
        Err(RevlogError::UnknownEncoding)
    } else if data[0] == 0 {
        Ok(Seq::empty())
    } else if data[0] == 0x78 {
        match zlib_inflated(data) {
            None => Err(RevlogError::CorruptPayload),
            Some(t) => if valid_utf8(t) {
                Ok(decode_utf8(t))
            } else {
                Err(RevlogError::InvalidText)
            },
        }
    } else if data[0] == 0x75 {
        if valid_utf8(data.skip(1)) {
            Ok(decode_utf8(data.skip(1)))
        } else {
            Err(RevlogError::InvalidText)
        }
    } else {
        Err(RevlogError::UnknownEncoding)
    }
}

/// The pieces of `t` between newline characters: one more than there are
/// newlines.
pub open spec fn pieces(t: Seq<char>) -> Seq<Seq<char>>
    decreases t.len(),
{
    if t.len() == 0 {
        seq![Seq::empty()]
    } else {
        let p = pieces(t.drop_last());
        if t.last() == '\n' {
            p.push(Seq::empty())
        } else {
            p.update(p.len() - 1, p.last().push(t.last()))
        }
    }
}

/// The lines of `t`: its pieces, without the empty one after a final
/// newline. Empty text has no lines.
pub open spec fn text_lines(t: Seq<char>) -> Seq<Seq<char>> {
    let p = pieces(t);
    if p.last().len() == 0 {
        p.drop_last()
    } else {
        p
    }
}

/// The index of the first empty line at or after `i`, or the number of
/// lines where there is none.
pub open spec fn first_blank(l: Seq<Seq<char>>, i: nat) -> nat
    decreases l.len() - i,
{
    if i >= l.len() {
        l.len()
    } else if l[i as int].len() == 0 {
        i
    } else {
        first_blank(l, i + 1)
    }
}

/// The lines joined with newline characters between them.
pub open spec fn join_lines(l: Seq<Seq<char>>) -> Seq<char>
    decreases l.len(),
{
    if l.len() == 0 {
        Seq::empty()
    } else if l.len() == 1 {
        l[0]
    } else {
        join_lines(l.drop_last()) + seq!['\n'] + l.last()
    }
}

/// The value of a run of decimal digits.
pub open spec fn digits_value(s: Seq<char>) -> nat
    decreases s.len(),
{
    if s.len() == 0 {
        0
    } else {
        digits_value(s.drop_last()) * 10 + (s.last() as nat - '0' as nat) as nat
    }
}

pub open spec fn is_digit(c: char) -> bool {
    '0' <= c <= '9'
}

/// Whether every character of `d` is a decimal digit.
pub open spec fn all_digits(d: Seq<char>) -> bool {
    forall|i: int| 0 <= i < d.len() ==> is_digit(#[trigger] d[i])
}

/// Whether `s` starts with a sign.
pub open spec fn signed(s: Seq<char>) -> bool {
    s.len() > 0 && (s[0] == '-' || s[0] == '+')
}

/// `s` without its sign, if it has one.
pub open spec fn unsigned_part(s: Seq<char>) -> Seq<char> {
    if signed(s) {
        s.skip(1)
    } else {
        s
    }
}

/// The integer that `s` spells: an optional `+` or `-`, then one or more
/// decimal digits and nothing else.
pub open spec fn decimal_value(s: Seq<char>) -> Option<int> {
    let d = unsigned_part(s);
    if d.len() > 0 && all_digits(d) {
        Some(
            if s[0] == '-' {
                -digits_value(d)
            } else {
                digits_value(d) as int
            },
        )
    } else {
        None
    }
}

/// ASCII whitespace: space, tab, line feed, vertical tab, form feed and
/// carriage return.
pub open spec fn is_space(c: char) -> bool {
    c == ' ' || c == '\t' || c == '\n' || c == '\x0b' || c == '\x0c' || c == '\r'
}

/// The index of the first character at or after `i` that is whitespace
/// (where `space`) or is not (otherwise), or the length of `s`.
pub open spec fn next_where(s: Seq<char>, i: nat, space: bool) -> nat
    decreases s.len() - i,
{
    if i >= s.len() {
        s.len()
    } else if is_space(s[i as int]) == space {
        i
    } else {
        next_where(s, i + 1, space)
    }
}

/// The date that a date line spells: its first whitespace-separated token
/// is the timestamp, its second the UTC offset; any further tokens are
/// ignored.
pub open spec fn spec_date(s: Seq<char>) -> Option<DateStamp> {
    let a0 = next_where(s, 0, false);
    let a1 = next_where(s, a0, true);
    let b0 = next_where(s, a1, false);
    let b1 = next_where(s, b0, true);
    if b0 >= s.len() {
        None
    } else {
        match (
            decimal_value(s.subrange(a0 as int, a1 as int)),
            decimal_value(s.subrange(b0 as int, b1 as int)),
        ) {
            (Some(t), Some(o)) => if i64::MIN <= t <= i64::MAX && i32::MIN <= o <= i32::MAX {
                Some(DateStamp { timestamp: t as i64, utc_offset: o as i32 })
            } else {
                None
            },
            _ => None,
        }
    }
}

/// The views of a list of character vectors.
pub open spec fn lines_view(v: Seq<Vec<char>>) -> Seq<Seq<char>> {
    v.map_values(|l: Vec<char>| l@)
}

/// Whether the text `t` has a date line that does not parse.
pub open spec fn has_bad_date(t: Seq<char>) -> bool {
    let l = text_lines(t);
    first_blank(l, 0) > 2 && spec_date(l[2]) is None
}

/// `c` holds the fields of the text `t`. The lines before the first blank
/// line are the hash, the author, the date and then one file per line; the
/// lines after it, joined, are the message. Without a header line or
/// without a blank line there is no message.
pub open spec fn describes(c: Changeset, data: Seq<u8>, t: Seq<char>) -> bool {
    let l = text_lines(t);
    let k = first_blank(l, 0);
    &&& c.data@ == data
    &&& (c.hash is Some <==> k > 0)
    &&& k > 0 ==> c.hash->0@ == l[0]
    &&& (c.author is Some <==> k > 1)
    &&& k > 1 ==> c.author->0@ == l[1]
    &&& c.when == if k > 2 {
        spec_date(l[2])
    } else {
        None
    }
    &&& c.files@.len() == if k > 3 {
        k - 3
    } else {
        0
    }
    &&& forall|i: int| 0 <= i < c.files@.len() ==> #[trigger] c.files@[i]@ == l[i + 3]
    &&& (c.message is Some <==> 0 < k < l.len())
    &&& c.message is Some ==> c.message->0@ == join_lines(l.skip(k + 1int))
}

/// The characters of `s`, in order.
fn text_chars(s: &str) -> (r: Vec<char>)
    ensures
        r@ == s@,
{
    let mut out: Vec<char> = Vec::new();
    for c in it: s.chars()
        invariant
            out@ == it.seq().take(it.index() as int),
    {
        out.push(c);
        assert(out@ =~= it.seq().take(it.index() + 1));
    }
    assert(out@ =~= s@);
    out
}

/// A string holding the characters `c[from..to]`.
fn chars_to_string(c: &Vec<char>, from: usize, to: usize) -> (r: String)
    requires
        from <= to <= c@.len(),
    ensures
        r@ == c@.subrange(from as int, to as int),
{
    let mut s = String::new();
    let mut i: usize = from;
    while i < to
        invariant
            from <= i <= to <= c@.len(),
            s@ == c@.subrange(from as int, i as int),
        decreases to - i,
    {
        push_char(&mut s, c[i]);
        i = i + 1;
        assert(s@ =~= c@.subrange(from as int, i as int));
    }
    s
}

proof fn lemma_pieces_nonempty(t: Seq<char>)
    ensures
        pieces(t).len() > 0,
    decreases t.len(),
{
    if t.len() > 0 {
        lemma_pieces_nonempty(t.drop_last());
    }
}

/// Splits `t` into its lines.
fn split_lines(t: &Vec<char>) -> (r: Vec<Vec<char>>)
    ensures
        lines_view(r@) == text_lines(t@),
{
    let mut done: Vec<Vec<char>> = Vec::new();
    let mut cur: Vec<char> = Vec::new();
    let mut i: usize = 0;
    proof {
        assert(t@.take(0) =~= Seq::<char>::empty());
        assert(lines_view(done@).push(cur@) =~= pieces(t@.take(0)));
    }
    while i < t.len()
        invariant
            i <= t@.len(),
            pieces(t@.take(i as int)) == lines_view(done@).push(cur@),
        decreases t@.len() - i,
    {
        let c = t[i];
        proof {
            assert(t@.take(i + 1).drop_last() =~= t@.take(i as int));
            lemma_pieces_nonempty(t@.take(i as int));
        }
        if c == '\n' {
            done.push(cur);
            cur = Vec::new();
            assert(lines_view(done@).push(cur@) =~= pieces(t@.take(i + 1)));
        } else {
            cur.push(c);
            assert(lines_view(done@).push(cur@) =~= pieces(t@.take(i + 1)));
        }
        i = i + 1;
    }
    assert(t@.take(i as int) =~= t@);
    if cur.len() > 0 {
        done.push(cur);
        assert(lines_view(done@) =~= text_lines(t@));
    } else {
        assert(lines_view(done@) =~= text_lines(t@));
    }
    done
}

/// Largest magnitude that integer parsing keeps; above every `i64`.
const DECIMAL_CAP: i128 = 0x1_0000_0000_0000_0000;

/// The integer that `c[from..to]` spells, where its magnitude is at most
/// `DECIMAL_CAP`.
fn parse_decimal(c: &Vec<char>, from: usize, to: usize) -> (r: Option<i128>)
    requires
        from <= to <= c@.len(),
    ensures
        r == match decimal_value(c@.subrange(from as int, to as int)) {
            Some(v) => if -DECIMAL_CAP <= v <= DECIMAL_CAP {
                Some(v as i128)
            } else {
                None
            },
            None => None,
        },
{
    let ghost sub = c@.subrange(from as int, to as int);
    let mut i: usize = from;
    let mut negative = false;
    if i < to && (c[i] == '-' || c[i] == '+') {
        negative = c[i] == '-';
        i = i + 1;
    }
    let start = i;
    let ghost d = c@.subrange(start as int, to as int);
    proof {
        if sub.len() > 0 {
            assert(sub[0] == c@[from as int]);
        }
        if start > from {
            assert(d =~= sub.skip(1));
        } else {
            assert(d =~= sub);
        }
        assert(d == unsigned_part(sub));
    }
    if start == to {
        return None;
    }
    let mut acc: i128 = 0;
    let mut big = false;
    while i < to
        invariant
            from <= start <= i <= to <= c@.len(),
            start < to,
            d == c@.subrange(start as int, to as int),
            sub == c@.subrange(from as int, to as int),
            d == unsigned_part(sub),
            forall|j: int| start <= j < i ==> is_digit(#[trigger] c@[j]),
            !big ==> 0 <= acc <= DECIMAL_CAP && acc == digits_value(
                c@.subrange(start as int, i as int),
            ),
            big ==> digits_value(c@.subrange(start as int, i as int)) > DECIMAL_CAP,
        decreases to - i,
    {
        let ch = c[i];
        if !('0' <= ch && ch <= '9') {
            proof {
                assert(d[i - start] == c@[i as int]);
                assert(!all_digits(d));
            }
            return None;
        }
        proof {
            assert(c@.subrange(start as int, i + 1).drop_last() =~= c@.subrange(
                start as int,
                i as int,
            ));
        }
        if !big {
            acc = acc * 10 + (ch as u32 - '0' as u32) as i128;
            if acc > DECIMAL_CAP {
                big = true;
            }
        }
        i = i + 1;
    }
    proof {
        assert(c@.subrange(start as int, i as int) =~= d);
        assert(forall|j: int| 0 <= j < d.len() ==> d[j] == c@[start + j]);
        assert(all_digits(d));
    }
    if big {
        None
    } else if negative {
        Some(-acc)
    } else {
        Some(acc)
    }
}

/// The index of the first character at or after `from` that is
/// whitespace (where `space`) or is not (otherwise), or the length.
fn find_where(c: &Vec<char>, from: usize, space: bool) -> (r: usize)
    requires
        from <= c@.len(),
    ensures
        r == next_where(c@, from as nat, space),
        from <= r <= c@.len(),
{
    let mut i: usize = from;
    while i < c.len()
        invariant
            from <= i <= c@.len(),
            next_where(c@, from as nat, space) == next_where(c@, i as nat, space),
        decreases c@.len() - i,
    {
        let ch = c[i];
        let ws = ch == ' ' || ch == '\t' || ch == '\n' || ch == '\x0b' || ch == '\x0c' || ch
            == '\r';
        if ws == space {
            return i;
        }
        i = i + 1;
    }
    i
}

/// Parses a date line held as characters.
fn parse_date_chars(c: &Vec<char>) -> (r: Result<DateStamp, RevlogError>)
    ensures
        r matches Ok(d) ==> spec_date(c@) == Some(d),
        r is Err ==> spec_date(c@) is None && r == Err::<DateStamp, RevlogError>(
            RevlogError::MalformedDate,
        ),
{
    let a0 = find_where(c, 0, false);
    let a1 = find_where(c, a0, true);
    let b0 = find_where(c, a1, false);
    let b1 = find_where(c, b0, true);
    if b0 >= c.len() {
        return Err(RevlogError::MalformedDate);
    }
    let timestamp = parse_decimal(c, a0, a1);
    let offset = parse_decimal(c, b0, b1);
    match (timestamp, offset) {
        (Some(t), Some(o)) => {
            if t < i64::MIN as i128 || t > i64::MAX as i128 || o < i32::MIN as i128 || o
                > i32::MAX as i128 {
                Err(RevlogError::MalformedDate)
            } else {
                Ok(DateStamp { timestamp: t as i64, utc_offset: o as i32 })
            }
        },
        _ => Err(RevlogError::MalformedDate),
    }
}

/// The number of header lines: the index of the first blank line.
fn header_end(l: &Vec<Vec<char>>) -> (r: usize)
    ensures
        r == first_blank(lines_view(l@), 0),
        r <= l@.len(),
{
    let mut i: usize = 0;
    while i < l.len()
        invariant
            i <= l@.len(),
            first_blank(lines_view(l@), 0) == first_blank(lines_view(l@), i as nat),
        decreases l@.len() - i,
    {
        if l[i].len() == 0 {
            return i;
        }
        i = i + 1;
    }
    i
}

/// The lines from `from` on, joined with newlines.
fn join_from(l: &Vec<Vec<char>>, from: usize) -> (r: String)
    requires
        from <= l@.len(),
    ensures
        r@ == join_lines(lines_view(l@).skip(from as int)),
{
    let ghost lv = lines_view(l@);
    let mut s = String::new();
    let mut j: usize = from;
    proof {
        assert(lv.subrange(from as int, from as int) =~= Seq::<Seq<char>>::empty());
    }
    while j < l.len()
        invariant
            from <= j <= l@.len(),
            lv == lines_view(l@),
            s@ == join_lines(lv.subrange(from as int, j as int)),
        decreases l@.len() - j,
    {
        let ghost before = s@;
        let ghost sep: Seq<char> = if j > from {
            seq!['\n']
        } else {
            Seq::empty()
        };
        if j > from {
            push_char(&mut s, '\n');
        }
        let line = &l[j];
        let mut m: usize = 0;
        while m < line.len()
            invariant
                m <= line@.len(),
                s@ == before + sep + line@.take(m as int),
            decreases line@.len() - m,
        {
            push_char(&mut s, line[m]);
            m = m + 1;
            assert(s@ =~= before + sep + line@.take(m as int));
        }
        proof {
            let next = lv.subrange(from as int, j + 1);
            assert(next.drop_last() =~= lv.subrange(from as int, j as int));
            assert(line@.take(m as int) =~= line@);
            if j == from {
                assert(s@ =~= line@);
            } else {
                assert(s@ =~= before + seq!['\n'] + line@);
            }
        }
        j = j + 1;
    }
    assert(lv.subrange(from as int, j as int) =~= lv.skip(from as int));
    s
}

impl Changeset {
    /// The text that payload `data` holds, chosen by its tag byte.
    pub fn raw(data: &[u8]) -> (r: Result<String, RevlogError>)
        ensures
            spec_payload_text(data@) matches Ok(t) ==> r matches Ok(s) && s@ == t,
            spec_payload_text(data@) matches Err(e) ==> r == Err::<String, RevlogError>(e),
    {
        if data.len() == 0 {
            return Err(RevlogError::UnknownEncoding);
        }
        match data[0] {
            0 => Ok(String::new()),
            0x78 => match inflate(data) {
                None => Err(RevlogError::CorruptPayload),
                Some(v) => match utf8_text(v) {
                    Some(s) => Ok(s),
                    None => Err(RevlogError::InvalidText),
                },
            },
            0x75 => {
                let len: usize = data.len();
                let mut body: Vec<u8> = Vec::new();
                let mut i: usize = 1;
                while i < len
                    invariant
                        len == data@.len(),
                        1 <= i <= len,
                        body@ == data@.subrange(1, i as int),
                    decreases len - i,
                {
                    body.push(data[i]);
                    i = i + 1;
                    assert(body@ =~= data@.subrange(1, i as int));
                }
                assert(body@ =~= data@.skip(1));
                match utf8_text(body) {
                    Some(s) => Ok(s),
                    None => Err(RevlogError::InvalidText),
                }
            },
            _ => Err(RevlogError::UnknownEncoding),
        }
    }

    /// Parses a date line: an integer timestamp and an integer UTC offset
    /// in seconds, separated by whitespace.
    pub fn parse_date_string(s: &str) -> (r: Result<DateStamp, RevlogError>)
        ensures
            r matches Ok(d) ==> spec_date(s@) == Some(d),
            r is Err ==> spec_date(s@) is None && r == Err::<DateStamp, RevlogError>(
                RevlogError::MalformedDate,
            ),
    {
        let c = text_chars(s);
        parse_date_chars(&c)
    }

    /// Builds the changeset that the text `text` of payload `data` holds.
    pub fn parse(data: Vec<u8>, text: &str) -> (r: Result<Changeset, RevlogError>)
        ensures
            r is Err <==> has_bad_date(text@),
            r matches Err(e) ==> e == RevlogError::MalformedDate,
            r matches Ok(c) ==> describes(c, data@, text@),
    {
        let chars = text_chars(text);
        let lines = split_lines(&chars);
        let ghost l = lines_view(lines@);
        let k = header_end(&lines);
        let hash = if k > 0 {
            Some(chars_to_string(&lines[0], 0, lines[0].len()))
        } else {
            None
        };
        let author = if k > 1 {
            Some(chars_to_string(&lines[1], 0, lines[1].len()))
        } else {
            None
        };
        let when = if k > 2 {
            match parse_date_chars(&lines[2]) {
                Ok(d) => Some(d),
                Err(e) => return Err(e),
            }
        } else {
            None
        };
        let mut files: Vec<String> = Vec::new();
        let mut i: usize = 3;
        while i < k
            invariant
                3 <= i,
                k <= lines@.len(),
                i <= k || files@.len() == 0,
                l == lines_view(lines@),
                files@.len() == i - 3,
                forall|j: int| 0 <= j < files@.len() ==> #[trigger] files@[j]@ == l[j + 3],
            decreases k - i,
        {
            let f = chars_to_string(&lines[i], 0, lines[i].len());
            proof {
                assert(lines@[i as int]@.subrange(0, lines@[i as int]@.len() as int)
                    =~= lines@[i as int]@);
            }
            files.push(f);
            i = i + 1;
        }
        let message = if 0 < k && k < lines.len() {
            Some(join_from(&lines, k + 1))
        } else {
            None
        };
        proof {
            let ghost k0 = k as nat;
            assert(k0 == first_blank(l, 0));
            assert(l.len() == lines@.len());
            if k > 0 {
                assert(l[0] == lines@[0]@);
                assert(lines@[0]@.subrange(0, lines@[0]@.len() as int) =~= lines@[0]@);
                assert(hash->0@ == l[0]);
            }
            if k > 1 {
                assert(lines@[1]@.subrange(0, lines@[1]@.len() as int) =~= lines@[1]@);
                assert(author->0@ == l[1]);
            }
            assert(forall|j: int| 0 <= j < files@.len() ==> #[trigger] files@[j]@ == l[j + 3]);
        }
        Ok(Changeset { data, files, hash, author, when, message })
    }

    /// Decodes payload `data`: its text, then the fields of the text.
    pub fn from(data: Vec<u8>) -> (r: Result<Changeset, RevlogError>)
        ensures
            spec_payload_text(data@) matches Err(e) ==> r == Err::<Changeset, RevlogError>(e),
            spec_payload_text(data@) is Ok && has_bad_date(spec_payload_text(data@)->Ok_0) ==> r
                == Err::<Changeset, RevlogError>(RevlogError::MalformedDate),
            spec_payload_text(data@) is Ok && !has_bad_date(spec_payload_text(data@)->Ok_0) ==> r
                is Ok && describes(r->Ok_0, data@, spec_payload_text(data@)->Ok_0),
    {
        let text = match Changeset::raw(&data) {
            Ok(t) => t,
            Err(e) => return Err(e),
        };
        Changeset::parse(data, text.as_str())
    }
}

} // verus!
