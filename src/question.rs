//! Questions and their identifiers: identifier text, tag normal form and
//! the text form of a question.

use vstd::prelude::*;

use crate::api::ApiError;

verus! {

/// A decimal digit character.
pub open spec fn is_digit(c: char) -> bool {
    '0' <= c <= '9'
}

/// Value of a decimal digit character.
pub open spec fn digit_value(c: char) -> int {
    (c as int) - ('0' as int)
}

/// Every character is a decimal digit.
pub open spec fn all_digits(s: Seq<char>) -> bool {
    forall|i: int| 0 <= i < s.len() ==> is_digit(#[trigger] s[i])
}

/// Value of a string of decimal digits, most significant first.
pub open spec fn digits_value(s: Seq<char>) -> int
    decreases s.len(),
{
    if s.len() == 0 {
        0
    } else {
        digits_value(s.drop_last()) * 10 + digit_value(s.last())
    }
}

/// The digits of an identifier's text: the text with one leading `+` removed.
pub open spec fn id_digits(s: Seq<char>) -> Seq<char> {
    if s.len() > 0 && s[0] == '+' {
        s.drop_first()
    } else {
        s
    }
}

/// Text that names a question or account identifier: an optional `+`, then
/// one or more decimal digits, whose value fits in an `i32`. A minus sign is
/// never accepted, so every identifier is non-negative.
pub open spec fn is_id_text(s: Seq<char>) -> bool {
    let d = id_digits(s);
    &&& d.len() > 0
    &&& all_digits(d)
    &&& digits_value(d) <= i32::MAX
}

/// Identifier of a question. Valid identifiers are non-negative.
#[derive(Debug, Clone, Copy, PartialEq, Eq, Structural, Hash)]
pub struct QuestionId(pub i32);

impl QuestionId {
    pub open spec fn is_valid(self) -> bool {
        self.0 >= 0
    }
}

const ASCII_PLUS: u8 = 43;

const ASCII_ZERO: u8 = 48;

const ASCII_NINE: u8 = 57;

/// Reads an identifier from its decimal text (see `is_id_text`).
pub fn parse_id(s: &str) -> (r: Option<i32>)
    ensures
        r is Some <==> is_id_text(s@),
        r matches Some(v) ==> v as int == digits_value(id_digits(s@)) && v >= 0,
{
    if !s.is_ascii() {
        proof {
            assert(!is_id_text(s@)) by {
                let d = id_digits(s@);
                let k = choose|k: int| 0 <= k < s@.len() && !('\0' <= #[trigger] s@[k] <= '\u{7f}');
                if s@.len() > 0 && s@[0] == '+' {
                    assert(d[k - 1] == s@[k]);
                } else {
                    assert(d[k] == s@[k]);
                }
            }
        }
        return None;
    }
    proof {
        broadcast use vstd::string::is_ascii_spec_bytes;
    }
    let len = s.unicode_len();
    let mut i: usize = 0;
    if len > 0 && s.get_ascii(0) == ASCII_PLUS {
        i = 1;
    }
    let start: usize = i;
    if start >= len {
        return None;
    }
    let ghost d = id_digits(s@);
    assert(d =~= s@.subrange(start as int, len as int));
    let mut value: i64 = 0;
    let mut big: bool = false;
    while i < len
        invariant
            start <= i <= len,
            len == s@.len(),
            s.is_ascii(),
            d == s@.subrange(start as int, len as int),
            d == id_digits(s@),
            all_digits(d.subrange(0, i - start)),
            !big ==> value as int == digits_value(d.subrange(0, i - start)),
            !big ==> 0 <= value <= i32::MAX,
            big ==> digits_value(d.subrange(0, i - start)) > i32::MAX,
        decreases len - i,
    {
        let b = s.get_ascii(i);
        let ghost c = s@[i as int];
        assert(d[i - start] == c);
        assert('\0' <= c <= '\u{7f}');
        assert(c as int == b as int);
        if b < ASCII_ZERO || b > ASCII_NINE {
            assert(!all_digits(d));
            return None;
        }
        let ghost prefix = d.subrange(0, i - start);
        let ghost next = d.subrange(0, i + 1 - start);
        assert(next.drop_last() =~= prefix);
        assert(next.last() == c);
        assert(digit_value(c) == b as int - 48);
        assert(all_digits(next));
        if !big {
            value = value * 10 + (b - ASCII_ZERO) as i64;
            if value > i32::MAX as i64 {
                big = true;
            }
        } else {
            assert(digits_value(next) == digits_value(prefix) * 10 + digit_value(c));
        }
        i = i + 1;
    }
    assert(d.subrange(0, len - start) =~= d);
    if big {
        None
    } else {
        Some(value as i32)
    }
}

/// Mathematical model of a question.
pub struct QuestionView {
    pub id: int,
    pub title: Seq<char>,
    pub content: Seq<char>,
    pub tags: Option<Seq<Seq<char>>>,
}

/// A question, with an optional set of tags kept in the order first given.
#[derive(Debug, PartialEq, Eq)]
pub struct Question {
    pub id: QuestionId,
    pub title: String,
    pub content: String,
    pub tags: Option<Vec<String>>,
}

/// The body of a request that replaces a question; the identifier may come
/// from elsewhere in the request.
#[derive(Debug, PartialEq, Eq)]
pub struct UpdateQuestion {
    pub id: Option<QuestionId>,
    pub title: String,
    pub content: String,
    pub tags: Option<Vec<String>>,
}

pub open spec fn strings_view(v: Seq<String>) -> Seq<Seq<char>> {
    v.map_values(|s: String| s@)
}

pub open spec fn tags_view(t: Option<Vec<String>>) -> Option<Seq<Seq<char>>> {
    match t {
        Some(v) => Some(strings_view(v@)),
        None => None,
    }
}

impl View for Question {
    type V = QuestionView;

    open spec fn view(&self) -> QuestionView {
        QuestionView {
            id: self.id.0 as int,
            title: self.title@,
            content: self.content@,
            tags: tags_view(self.tags),
        }
    }
}

/// The tags with later repetitions of a tag left out.
pub open spec fn dedup(s: Seq<Seq<char>>) -> Seq<Seq<char>>
    decreases s.len(),
{
    if s.len() == 0 {
        s
    } else {
        let d = dedup(s.drop_last());
        if d.contains(s.last()) {
            d
        } else {
            d.push(s.last())
        }
    }
}

/// Tags as the store keeps them: an empty list becomes no tags, and a
/// repeated tag is kept once.
pub open spec fn normal_tags(t: Option<Seq<Seq<char>>>) -> Option<Seq<Seq<char>>> {
    match t {
        Some(s) => if s.len() == 0 {
            None
        } else {
            Some(dedup(s))
        },
        None => None,
    }
}

/// The question as the store keeps it.
pub open spec fn normalized(q: QuestionView) -> QuestionView {
    QuestionView { tags: normal_tags(q.tags), ..q }
}

/// A question that the store keeps unchanged: its identifier is valid and its
/// tags are already in normal form.
pub open spec fn is_normal(q: QuestionView) -> bool {
    q.id >= 0 && normal_tags(q.tags) == q.tags
}

proof fn lemma_push_contains(s: Seq<Seq<char>>, y: Seq<char>, x: Seq<char>)
    ensures
        s.push(y).contains(x) <==> s.contains(x) || x == y,
{
    if s.push(y).contains(x) && x != y {
        let i = choose|i: int| 0 <= i < s.push(y).len() && s.push(y)[i] == x;
        assert(s[i] == x);
    }
    if s.contains(x) {
        let i = choose|i: int| 0 <= i < s.len() && s[i] == x;
        assert(s.push(y)[i] == x);
    }
    if x == y {
        assert(s.push(y)[s.len() as int] == x);
    }
}

pub proof fn lemma_dedup_contains(s: Seq<Seq<char>>, x: Seq<char>)
    ensures
        dedup(s).contains(x) <==> s.contains(x),
    decreases s.len(),
{
    if s.len() > 0 {
        let p = s.drop_last();
        lemma_dedup_contains(p, x);
        assert(s =~= p.push(s.last()));
        lemma_push_contains(p, s.last(), x);
        lemma_push_contains(dedup(p), s.last(), x);
        lemma_dedup_contains(p, s.last());
    }
}

pub proof fn lemma_dedup_no_duplicates(s: Seq<Seq<char>>)
    ensures
        dedup(s).no_duplicates(),
        s.len() > 0 ==> dedup(s).len() > 0,
    decreases s.len(),
{
    if s.len() > 0 {
        lemma_dedup_no_duplicates(s.drop_last());
        let d = dedup(s.drop_last());
        if !d.contains(s.last()) {
            assert forall|i: int, j: int|
                0 <= i < d.push(s.last()).len() && 0 <= j < d.push(s.last()).len() && i != j
                    implies d.push(s.last())[i] != d.push(s.last())[j] by {
                if i == d.len() {
                    assert(d[j] == d.push(s.last())[j]);
                } else if j == d.len() {
                    assert(d[i] == d.push(s.last())[i]);
                }
            }
        } else {
            assert(d.len() > 0);
        }
    }
}

pub proof fn lemma_dedup_of_distinct(s: Seq<Seq<char>>)
    requires
        s.no_duplicates(),
    ensures
        dedup(s) == s,
    decreases s.len(),
{
    if s.len() > 0 {
        let p = s.drop_last();
        lemma_dedup_of_distinct(p);
        lemma_dedup_contains(p, s.last());
        if p.contains(s.last()) {
            let i = choose|i: int| 0 <= i < p.len() && p[i] == s.last();
            assert(s[i] == s[s.len() - 1]);
        }
        assert(p.push(s.last()) =~= s);
    }
}

/// Normal form is reached in one step.
pub proof fn lemma_normalized_is_normal(q: QuestionView)
    requires
        q.id >= 0,
    ensures
        is_normal(normalized(q)),
{
    if let Some(t) = q.tags {
        if t.len() > 0 {
            lemma_dedup_no_duplicates(t);
            lemma_dedup_of_distinct(dedup(t));
        }
    }
}

/// A question in normal form is kept as it is.
pub proof fn lemma_normal_unchanged(q: QuestionView)
    requires
        is_normal(q),
    ensures
        normalized(q) == q,
{
}

/// Puts tags in normal form (see `normal_tags`).
pub fn normalize_tags(tags: Option<Vec<String>>) -> (r: Option<Vec<String>>)
    ensures
        tags_view(r) == normal_tags(tags_view(tags)),
{
    match tags {
        None => None,
        Some(v) => {
            if v.len() == 0 {
                return None;
            }
            let ghost sv = strings_view(v@);
            let mut out: Vec<String> = Vec::new();
            let mut i: usize = 0;
            while i < v.len()
                invariant
                    i <= v.len(),
                    sv == strings_view(v@),
                    strings_view(out@) == dedup(sv.subrange(0, i as int)),
                decreases v.len() - i,
            {
                let t = &v[i];
                let mut found = false;
                let mut j: usize = 0;
                while j < out.len()
                    invariant
                        j <= out.len(),
                        found <==> exists|k: int| 0 <= k < j && (#[trigger] out@[k])@ == t@,
                    decreases out.len() - j,
                {
                    if out[j] == *t {
                        found = true;
                    }
                    j = j + 1;
                }
                proof {
                    if found {
                        let k = choose|k: int| 0 <= k < out.len() && (#[trigger] out@[k])@ == t@;
                        assert(strings_view(out@)[k] == t@);
                    }
                    if strings_view(out@).contains(t@) {
                        let k = choose|k: int| 0 <= k < out.len() && strings_view(out@)[k] == t@;
                        assert(out@[k]@ == t@);
                    }
                }
                let ghost before = sv.subrange(0, i as int);
                assert(sv.subrange(0, i as int + 1).drop_last() =~= before);
                if !found {
                    out.push(t.clone());
                    assert(strings_view(out@) =~= dedup(before).push(t@));
                }
                i = i + 1;
            }
            assert(sv.subrange(0, v.len() as int) =~= sv);
            Some(out)
        },
    }
}

fn clone_tags(tags: &Option<Vec<String>>) -> (r: Option<Vec<String>>)
    ensures
        tags_view(r) == tags_view(*tags),
{
    match tags {
        None => None,
        Some(v) => {
            let mut out: Vec<String> = Vec::new();
            let mut i: usize = 0;
            while i < v.len()
                invariant
                    i <= v.len(),
                    out@.len() == i,
                    forall|k: int| 0 <= k < i ==> (#[trigger] out@[k])@ == v@[k]@,
                decreases v.len() - i,
            {
                out.push(v[i].clone());
                i = i + 1;
            }
            assert(strings_view(out@) =~= strings_view(v@));
            Some(out)
        },
    }
}

impl Clone for Question {
    fn clone(&self) -> (r: Self)
        ensures
            r@ == self@,
    {
        Question {
            id: self.id,
            title: self.title.clone(),
            content: self.content.clone(),
            tags: clone_tags(&self.tags),
        }
    }
}

/// The strings joined, with `sep` between each two.
pub open spec fn join(s: Seq<Seq<char>>, sep: Seq<char>) -> Seq<char>
    decreases s.len(),
{
    if s.len() == 0 {
        Seq::empty()
    } else if s.len() == 1 {
        s[0]
    } else {
        join(s.drop_last(), sep) + sep + s.last()
    }
}

/// The tags joined by `", "`, in the order they are kept.
pub fn format_tags(tags: &Vec<String>) -> (r: String)
    ensures
        r@ == join(strings_view(tags@), ", "@),
{
    let ghost sv = strings_view(tags@);
    let mut r = String::new();
    let mut i: usize = 0;
    while i < tags.len()
        invariant
            i <= tags.len(),
            sv == strings_view(tags@),
            r@ == join(sv.subrange(0, i as int), ", "@),
        decreases tags.len() - i,
    {
        assert(sv.subrange(0, i as int + 1).drop_last() =~= sv.subrange(0, i as int));
        if i > 0 {
            r.append(", ");
        } else {
            assert(r@ == Seq::<char>::empty());
            assert(Seq::<char>::empty() + tags@[0]@ =~= tags@[0]@);
        }
        r.append(tags[i].as_str());
        i = i + 1;
    }
    assert(sv.subrange(0, tags.len() as int) =~= sv);
    r
}

pub open spec fn digit_char(d: int) -> char {
    seq!['0', '1', '2', '3', '4', '5', '6', '7', '8', '9'][d]
}

/// Decimal digits of a natural number, without leading zeros.
pub open spec fn nat_digits(n: nat) -> Seq<char>
    decreases n,
{
    if n < 10 {
        seq![digit_char(n as int)]
    } else {
        nat_digits(n / 10).push(digit_char((n % 10) as int))
    }
}

/// Decimal text of an integer, with a leading `-` when it is negative.
pub open spec fn decimal(n: int) -> Seq<char> {
    if n < 0 {
        seq!['-'] + nat_digits((-n) as nat)
    } else {
        nat_digits(n as nat)
    }
}

/// What Rust's `Debug` formatting writes for a string: the string quoted,
/// with special characters escaped.
pub uninterp spec fn debug_text(s: Seq<char>) -> Seq<char>;

/// The text of one decimal digit.
fn digit_text(d: u32) -> (r: &'static str)
    requires
        d < 10,
    ensures
        r@ == seq![digit_char(d as int)],
{
    proof {
        reveal_strlit("0");
        reveal_strlit("1");
        reveal_strlit("2");
        reveal_strlit("3");
        reveal_strlit("4");
        reveal_strlit("5");
        reveal_strlit("6");
        reveal_strlit("7");
        reveal_strlit("8");
        reveal_strlit("9");
    }
    let r = match d {
        0 => "0",
        1 => "1",
        2 => "2",
        3 => "3",
        4 => "4",
        5 => "5",
        6 => "6",
        7 => "7",
        8 => "8",
        _ => "9",
    };
    assert(r@ =~= seq![digit_char(d as int)]);
    r
}

/// Decimal digits of a natural number (see `nat_digits`).
fn nat_text(m: u32) -> (r: String)
    ensures
        r@ == nat_digits(m as nat),
    decreases m,
{
    if m < 10 {
        digit_text(m).to_owned()
    } else {
        let mut r = nat_text(m / 10);
        let ghost high = r@;
        r.append(digit_text(m % 10));
        assert(r@ =~= high.push(digit_char((m % 10) as int)));
        r
    }
}

/// Decimal text of an integer (see `decimal`).
fn decimal_string(n: i32) -> (r: String)
    ensures
        r@ == decimal(n as int),
{
    if n < 0 {
        let m: u32 = (-(n as i64)) as u32;
        let digits = nat_text(m);
        let mut r = "-".to_owned();
        proof {
            reveal_strlit("-");
        }
        r.append(digits.as_str());
        assert(r@ =~= seq!['-'] + nat_digits((-n) as nat));
        r
    } else {
        nat_text(n as u32)
    }
}

/// Relies on `str`'s `Debug` formatting, which depends on the characters alone.
#[verifier::external_body]
fn debug_string(s: &str) -> (r: String)
    ensures
        r@ == debug_text(s@),
{
    format!("{:?}", s)
}

/// A question written out as text, where `quoted` stands for the quoted form
/// of its joined tags and is used only when it has tags.
pub open spec fn text_of(q: QuestionView, quoted: Seq<char>) -> Seq<char> {
    let note = if q.tags is Some {
        "; tags: "@ + quoted
    } else {
        Seq::empty()
    };
    decimal(q.id) + "Question: \n"@ + "Title: "@ + q.title + "\n"@ + "Content: "@ + q.content
        + "\n"@ + "[id: "@ + decimal(q.id) + note + "]\n"@
}

/// A question written out as text: its tags, joined by `", "`, appear
/// quoted and escaped as `Debug` writes a string.
pub open spec fn question_text(q: QuestionView) -> Seq<char> {
    match q.tags {
        Some(t) => text_of(q, debug_text(join(t, ", "@))),
        None => text_of(q, Seq::empty()),
    }
}

impl Question {
    /// The question written out as text (see `question_text`).
    pub fn to_text(&self) -> (r: String)
        ensures
            r@ == question_text(self@),
    {
        match &self.tags {
            Some(tags) => {
                let joined = format_tags(tags);
                let quoted = debug_string(joined.as_str());
                self.text_with_quoted_tags(quoted.as_str())
            },
            None => self.text_with_quoted_tags(""),
        }
    }

    /// The question written out as text, with `quoted` standing for its
    /// joined tags (see `text_of`).
    pub fn text_with_quoted_tags(&self, quoted: &str) -> (r: String)
        ensures
            r@ == text_of(self@, quoted@),
    {
        let id = decimal_string(self.id.0);
        let mut text = id.clone();
        text.append("Question: \n");
        text.append("Title: ");
        text.append(self.title.as_str());
        text.append("\n");
        text.append("Content: ");
        text.append(self.content.as_str());
        text.append("\n");
        text.append("[id: ");
        text.append(id.as_str());
        let ghost before_tags = text@;
        if self.tags.is_some() {
            text.append("; tags: ");
            text.append(quoted);
            assert(text@ =~= before_tags + ("; tags: "@ + quoted@));
        } else {
            assert(text@ =~= before_tags + Seq::<char>::empty());
        }
        text.append("]\n");
        text
    }
}

impl QuestionId {
    /// Reads a question identifier from its decimal text.
    pub fn parse(s: &str) -> (r: Result<QuestionId, ApiError>)
        ensures
            r is Ok <==> is_id_text(s@),
            r matches Ok(id) ==> id.0 as int == digits_value(id_digits(s@)) && id.is_valid(),
            r is Err ==> r == Err::<QuestionId, ApiError>(ApiError::InvalidIdentifier),
    {
        match parse_id(s) {
            Some(v) => Ok(QuestionId(v)),
            None => Err(ApiError::InvalidIdentifier),
        }
    }
}

impl std::str::FromStr for QuestionId {
    type Err = ApiError;

    /// Reads a question identifier from its decimal text (see `is_id_text`).
    fn from_str(s: &str) -> (r: Result<QuestionId, ApiError>)
        ensures
            r is Ok <==> is_id_text(s@),
            r matches Ok(id) ==> id.0 as int == digits_value(id_digits(s@)) && id.is_valid(),
            r is Err ==> r == Err::<QuestionId, ApiError>(ApiError::InvalidIdentifier),
    {
        QuestionId::parse(s)
    }
}

} // verus!
