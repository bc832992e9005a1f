//! Text rules: which characters count as blank or control, trimming,
//! splitting into words, path tails and decimal numbers.
use vstd::prelude::*;
use vstd::string::*;
use vstd::utf8;

use crate::model;

verus! {

// ---- characters -----------------------------------------------------------

/// The characters with the Unicode `White_Space` property.
pub open spec fn white(c: char) -> bool {
    let n = c as u32;
    ||| 0x09 <= n <= 0x0d
    ||| n == 0x20
    ||| n == 0x85
    ||| n == 0xa0
    ||| n == 0x1680
    ||| 0x2000 <= n <= 0x200a
    ||| n == 0x2028
    ||| n == 0x2029
    ||| n == 0x202f
    ||| n == 0x205f
    ||| n == 0x3000
}

/// The characters of the Unicode general category `Cc`.
pub open spec fn control(c: char) -> bool {
    let n = c as u32;
    n <= 0x1f || 0x7f <= n <= 0x9f
}

/// Whether a character separates words.
pub fn is_white(c: char) -> (r: bool)
    ensures
        r == white(c),
{
    let n: u32 = c as u32;
    (0x09 <= n && n <= 0x0d) || n == 0x20 || n == 0x85 || n == 0xa0 || n == 0x1680 || (0x2000 <= n
        && n <= 0x200a) || n == 0x2028 || n == 0x2029 || n == 0x202f || n == 0x205f || n == 0x3000
}

/// Whether a character is a control code.
pub fn is_control(c: char) -> (r: bool)
    ensures
        r == control(c),
{
    let n: u32 = c as u32;
    n <= 0x1f || (0x7f <= n && n <= 0x9f)
}

// ---- plain strings --------------------------------------------------------

/// How many bytes a text takes in UTF-8.
pub open spec fn byte_len(s: Seq<char>) -> nat {
    utf8::encode_utf8(s).len()
}

/// The characters of a string, in order.
pub fn chars_of(s: &str) -> (v: Vec<char>)
    ensures
        v@ == s@,
{
    let mut v: Vec<char> = Vec::new();
    for c in it: s.chars()
        invariant
            v@ == s@.take(it.index()),
            it.seq() == s@,
    {
        v.push(c);
        proof {
            model::lemma_take_step(s@, it.index());
        }
    }
    proof {
        model::lemma_take_all(s@);
    }
    v
}

/// The length of a string in bytes.
pub fn bytes_of(s: &str) -> (n: usize)
    ensures
        n == byte_len(s@),
{
    s.as_bytes().len()
}

/// Whether two texts are the same.
pub fn same(a: &str, b: &str) -> (r: bool)
    ensures
        r == (a@ == b@),
{
    a.to_owned() == b.to_owned()
}

/// Two texts, one after the other.
pub fn cat(a: &str, b: &str) -> (r: String)
    ensures
        r@ == a@ + b@,
{
    let mut s: String = a.to_owned();
    s.append(b);
    s
}

/// Three texts, one after the other.
pub fn cat3(a: &str, b: &str, c: &str) -> (r: String)
    ensures
        r@ == a@ + b@ + c@,
{
    let mut s: String = cat(a, b);
    s.append(c);
    s
}

/// The characters from position `from` up to, not including, position `to`.
pub fn between(s: &str, from: usize, to: usize) -> (r: String)
    requires
        from <= to <= s@.len(),
    ensures
        r@ == s@.subrange(from as int, to as int),
{
    s.substring_char(from, to).to_owned()
}

// ---- trimming -------------------------------------------------------------

/// A text without its trailing white space.
pub open spec fn trim_end(s: Seq<char>) -> Seq<char>
    decreases s.len(),
{
    if s.len() > 0 && white(s.last()) {
        trim_end(s.drop_last())
    } else {
        s
    }
}

/// A text without its leading white space.
pub open spec fn trim_start(s: Seq<char>) -> Seq<char>
    decreases s.len(),
{
    if s.len() > 0 && white(s.first()) {
        trim_start(s.drop_first())
    } else {
        s
    }
}

/// A text without the white space at either end.
pub open spec fn trimmed(s: Seq<char>) -> Seq<char> {
    trim_start(trim_end(s))
}

/// A text that is empty or all white space.
pub open spec fn blank(s: Seq<char>) -> bool {
    forall|i: int| 0 <= i < s.len() ==> white(#[trigger] s[i])
}

/// A text that neither starts nor ends in white space.
pub open spec fn tight(s: Seq<char>) -> bool {
    s.len() > 0 ==> !white(s.first()) && !white(s.last())
}

/// A string without the white space at either end.
pub fn trim(s: &str) -> (r: String)
    ensures
        r@ == trimmed(s@),
{
    let v = chars_of(s);
    let mut to: usize = v.len();
    proof {
        model::lemma_take_all(s@);
    }
    while to > 0 && is_white(v[to - 1])
        invariant
            to <= v@.len(),
            v@ == s@,
            trim_end(s@) == trim_end(s@.take(to as int)),
        decreases to,
    {
        proof {
            model::lemma_take_step(s@, to - 1);
        }
        to = to - 1;
    }
    let ghost t = s@.take(to as int);
    proof {
        if to > 0 {
            model::lemma_take_step(s@, to - 1);
        }
        assert(trim_end(s@) == t);
        assert(t.skip(0) =~= t);
    }
    let mut from: usize = 0;
    while from < to && is_white(v[from])
        invariant
            from <= to <= v@.len(),
            v@ == s@,
            t == s@.take(to as int),
            trim_start(t) == trim_start(t.skip(from as int)),
        decreases to - from,
    {
        proof {
            assert(t.skip(from as int).drop_first() =~= t.skip(from + 1));
            assert(t.skip(from as int).first() == s@[from as int]);
        }
        from = from + 1;
    }
    proof {
        if from < to {
            assert(t.skip(from as int).first() == s@[from as int]);
        }
        assert(trim_start(t) == t.skip(from as int));
        assert(t.skip(from as int) =~= s@.subrange(from as int, to as int));
    }
    between(s, from, to)
}

/// Whether a string is empty or all white space.
pub fn is_blank(s: &str) -> (r: bool)
    ensures
        r == blank(s@),
{
    let t = trim(s);
    proof {
        lemma_trimmed(s@);
    }
    t.as_str().is_empty()
}

/// What trimming leaves: a tight middle part of the text, empty exactly when
/// the text is blank, and the whole text when it was tight already.
pub proof fn lemma_trimmed(s: Seq<char>)
    ensures
        tight(trimmed(s)),
        trimmed(s).len() <= s.len(),
        (trimmed(s).len() == 0) == blank(s),
        tight(s) ==> trimmed(s) == s,
        trimmed(trimmed(s)) == trimmed(s),
{
    lemma_trim_end(s);
    lemma_trim_start(trim_end(s));
    let t = trimmed(s);
    if t.len() > 0 {
        assert(t.last() == trim_end(s).last());
    }
    if blank(s) && t.len() > 0 {
        assert(white(trim_end(s)[0]));
        assert(blank(trim_end(s)));
    }
    if t.len() == 0 {
        assert(blank(trim_end(s)));
        assert(blank(s));
    }
}

/// Where a text starts with a visible character, trimming only cuts its end.
pub proof fn lemma_trimmed_of_started(s: Seq<char>)
    requires
        s.len() > 0,
        !white(s[0]),
    ensures
        trimmed(s) == trim_end(s),
        trim_end(s).len() > 0,
        trim_end(s)[0] == s[0],
{
    lemma_trim_end(s);
    if trim_end(s).len() == 0 {
        assert(white(s[0]));
    }
}

proof fn lemma_trim_end(s: Seq<char>)
    ensures
        trim_end(s).len() <= s.len(),
        trim_end(s) == s.take(trim_end(s).len() as int),
        trim_end(s).len() > 0 ==> !white(trim_end(s).last()),
        forall|i: int| trim_end(s).len() <= i < s.len() ==> white(#[trigger] s[i]),
    decreases s.len(),
{
    if s.len() > 0 && white(s.last()) {
        lemma_trim_end(s.drop_last());
        let n = trim_end(s).len() as int;
        assert(s.drop_last().take(n) =~= s.take(n));
        assert forall|i: int| n <= i < s.len() implies white(#[trigger] s[i]) by {
            if i < s.len() - 1 {
                assert(s[i] == s.drop_last()[i]);
            }
        }
    } else {
        assert(s.take(s.len() as int) =~= s);
    }
}

proof fn lemma_trim_start(s: Seq<char>)
    ensures
        trim_start(s).len() <= s.len(),
        trim_start(s) == s.skip(s.len() - trim_start(s).len()),
        trim_start(s).len() > 0 ==> !white(trim_start(s).first()),
        forall|i: int| 0 <= i < s.len() - trim_start(s).len() ==> white(#[trigger] s[i]),
    decreases s.len(),
{
    if s.len() > 0 && white(s.first()) {
        let rest = s.drop_first();
        lemma_trim_start(rest);
        let n = s.len() - trim_start(s).len();
        assert(rest.skip(rest.len() - trim_start(rest).len()) =~= s.skip(n));
        assert forall|i: int| 0 <= i < n implies white(#[trigger] s[i]) by {
            if i > 0 {
                assert(s[i] == rest[i - 1]);
            }
        }
    } else {
        assert(s.skip(0) =~= s);
    }
}

/// The first `max` characters of a text, or all of it when it is shorter.
pub open spec fn capped(s: Seq<char>, max: nat) -> Seq<char> {
    if s.len() <= max {
        s
    } else {
        s.take(max as int)
    }
}

/// At most the first `max` characters of a string.
pub fn truncate(s: &str, max: usize) -> (r: String)
    ensures
        r@ == capped(s@, max as nat),
{
    if s.unicode_len() <= max {
        s.to_owned()
    } else {
        proof {
            assert(s@.subrange(0, max as int) =~= s@.take(max as int));
        }
        between(s, 0, max)
    }
}

/// Whether any character of a text is a control code.
pub open spec fn has_control(s: Seq<char>) -> bool {
    exists|i: int| 0 <= i < s.len() && control(#[trigger] s[i])
}

/// Whether any character of a text is white space.
pub open spec fn has_white(s: Seq<char>) -> bool {
    exists|i: int| 0 <= i < s.len() && white(#[trigger] s[i])
}

/// Whether a string holds a control code.
pub fn any_control(s: &str) -> (r: bool)
    ensures
        r == has_control(s@),
{
    let v = chars_of(s);
    let mut i: usize = 0;
    while i < v.len()
        invariant
            i <= v@.len(),
            v@ == s@,
            forall|k: int| 0 <= k < i ==> !control(#[trigger] s@[k]),
        decreases v@.len() - i,
    {
        if is_control(v[i]) {
            assert(control(s@[i as int]));
            return true;
        }
        i = i + 1;
    }
    false
}

/// Whether a string holds white space.
pub fn any_white(s: &str) -> (r: bool)
    ensures
        r == has_white(s@),
{
    let v = chars_of(s);
    let mut i: usize = 0;
    while i < v.len()
        invariant
            i <= v@.len(),
            v@ == s@,
            forall|k: int| 0 <= k < i ==> !white(#[trigger] s@[k]),
        decreases v@.len() - i,
    {
        if is_white(v[i]) {
            assert(white(s@[i as int]));
            return true;
        }
        i = i + 1;
    }
    false
}

/// Whether a text starts with a character.
pub open spec fn starts_with(s: Seq<char>, c: char) -> bool {
    s.len() > 0 && s[0] == c
}

/// Whether a string starts with a character.
pub fn begins_with(s: &str, c: char) -> (r: bool)
    ensures
        r == starts_with(s@, c),
{
    if s.is_empty() {
        false
    } else {
        s.get_char(0) == c
    }
}

/// Whether a text holds another one somewhere.
pub open spec fn holds(s: Seq<char>, part: Seq<char>) -> bool {
    exists|i: int| #[trigger] holds_at(s, part, i)
}

/// Whether a text holds another one from a position on.
pub open spec fn holds_at(s: Seq<char>, part: Seq<char>, i: int) -> bool {
    0 <= i && i + part.len() <= s.len() && s.subrange(i, i + part.len()) == part
}

/// Whether a string holds another one somewhere.
pub fn contains(s: &str, part: &str) -> (r: bool)
    ensures
        r == holds(s@, part@),
{
    let v = chars_of(s);
    let w = chars_of(part);
    let n: usize = v.len();
    let m: usize = w.len();
    if m > n {
        return false;
    }
    let last: usize = n - m;
    let mut i: usize = 0;
    while i < last
        invariant
            v@ == s@,
            w@ == part@,
            last + w@.len() == v@.len(),
            i <= last,
            forall|k: int| 0 <= k < i ==> !#[trigger] holds_at(s@, part@, k),
        decreases last - i,
    {
        if matches_at(&v, &w, i) {
            assert(holds_at(s@, part@, i as int));
            return true;
        }
        i = i + 1;
    }
    matches_at(&v, &w, last)
}

fn matches_at(v: &Vec<char>, w: &Vec<char>, i: usize) -> (r: bool)
    requires
        i + w@.len() <= v@.len(),
    ensures
        r == holds_at(v@, w@, i as int),
{
    let n: usize = v.len();
    let mut j: usize = 0;
    while j < w.len()
        invariant
            n == v@.len(),
            i + w@.len() <= n,
            j <= w@.len(),
            forall|k: int| 0 <= k < j ==> v@[i + k] == #[trigger] w@[k],
        decreases w@.len() - j,
    {
        if v[i + j] != w[j] {
            assert(v@.subrange(i as int, i + w@.len())[j as int] == v@[i + j]);
            return false;
        }
        j = j + 1;
    }
    assert(v@.subrange(i as int, i + w@.len()) =~= w@);
    true
}

// ---- line ends and paths --------------------------------------------------

/// A text without the line feeds and carriage returns at its end.
pub open spec fn chomped(s: Seq<char>) -> Seq<char>
    decreases s.len(),
{
    if s.len() > 0 && (s.last() == '\n' || s.last() == '\r') {
        chomped(s.drop_last())
    } else {
        s
    }
}

/// A string without the line feeds and carriage returns at its end.
pub fn chomp(s: &str) -> (r: String)
    ensures
        r@ == chomped(s@),
{
    let v = chars_of(s);
    let mut to: usize = v.len();
    proof {
        model::lemma_take_all(s@);
    }
    while to > 0 && (v[to - 1] == '\n' || v[to - 1] == '\r')
        invariant
            to <= v@.len(),
            v@ == s@,
            chomped(s@) == chomped(s@.take(to as int)),
        decreases to,
    {
        proof {
            model::lemma_take_step(s@, to - 1);
        }
        to = to - 1;
    }
    let ghost rest = s@.take(to as int);
    proof {
        assert(to > 0 ==> rest.last() == s@[to - 1]);
        assert(chomped(rest) == rest);
        assert(s@.subrange(0, to as int) =~= rest);
    }
    between(s, 0, to)
}

/// A path without the slashes at its end.
pub open spec fn without_slashes(p: Seq<char>) -> Seq<char>
    decreases p.len(),
{
    if p.len() > 0 && p.last() == '/' {
        without_slashes(p.drop_last())
    } else {
        p
    }
}

/// What follows the last slash of a path.
pub open spec fn after_slash(p: Seq<char>) -> Seq<char>
    decreases p.len(),
{
    if p.len() == 0 || p.last() == '/' {
        Seq::empty()
    } else {
        after_slash(p.drop_last()).push(p.last())
    }
}

/// The last component of a path; the root is its own name.
pub open spec fn base_name(p: Seq<char>) -> Seq<char> {
    let q = without_slashes(p);
    if q.len() == 0 {
        seq!['/']
    } else {
        after_slash(q)
    }
}

/// The last component of a path; `/` where there is none.
pub fn basename(p: &str) -> (r: String)
    ensures
        r@ == base_name(p@),
{
    let v = chars_of(p);
    let mut to: usize = v.len();
    proof {
        model::lemma_take_all(p@);
    }
    while to > 0 && v[to - 1] == '/'
        invariant
            to <= v@.len(),
            v@ == p@,
            without_slashes(p@) == without_slashes(p@.take(to as int)),
        decreases to,
    {
        proof {
            model::lemma_take_step(p@, to - 1);
        }
        to = to - 1;
    }
    let ghost q = p@.take(to as int);
    proof {
        if to > 0 {
            model::lemma_take_step(p@, to - 1);
        }
        assert(without_slashes(p@) == q);
    }
    if to == 0 {
        proof {
            reveal_strlit("/");
            assert("/"@ =~= seq!['/']);
        }
        return "/".to_owned();
    }
    let mut from: usize = to;
    proof {
        assert(q.subrange(to as int, to as int) =~= Seq::empty());
        assert(after_slash(q) =~= after_slash(q.take(to as int)) + Seq::<char>::empty()) by {
            model::lemma_take_all(q);
        }
    }
    while from > 0 && v[from - 1] != '/'
        invariant
            from <= to <= v@.len(),
            v@ == p@,
            q == p@.take(to as int),
            after_slash(q) == after_slash(q.take(from as int)) + q.subrange(from as int, to as int),
        decreases from,
    {
        proof {
            model::lemma_take_step(q, from - 1);
            let c = q[from - 1];
            let rest = q.subrange(from as int, to as int);
            assert(after_slash(q.take(from - 1)).push(c) + rest =~= after_slash(q.take(from - 1))
                + q.subrange(from - 1, to as int));
        }
        from = from - 1;
    }
    proof {
        if from > 0 {
            model::lemma_take_step(q, from - 1);
        }
        assert(after_slash(q.take(from as int)) =~= Seq::empty());
        assert(Seq::<char>::empty() + q.subrange(from as int, to as int) =~= p@.subrange(
            from as int,
            to as int,
        ));
    }
    between(p, from, to)
}

// ---- numbers --------------------------------------------------------------

/// A natural number in decimal, without leading zeros.
pub open spec fn decimal(n: nat) -> Seq<char>
    decreases n,
{
    if n < 10 {
        seq!["0123456789"@[n as int]]
    } else {
        decimal(n / 10).push("0123456789"@[(n % 10) as int])
    }
}

/// An integer in decimal, with a minus sign where it is negative.
pub open spec fn signed_decimal(n: int) -> Seq<char> {
    if n < 0 {
        seq!['-'] + decimal((-n) as nat)
    } else {
        decimal(n as nat)
    }
}

/// A number in decimal.
pub fn decimal_of(n: u64) -> (r: String)
    ensures
        r@ == decimal(n as nat),
    decreases n,
{
    let d: usize = (n % 10) as usize;
    proof {
        reveal_strlit("0123456789");
    }
    let last = between("0123456789", d, d + 1);
    if n < 10 {
        proof {
            assert(last@ =~= decimal(n as nat));
        }
        last
    } else {
        let mut s: String = decimal_of(n / 10);
        let ghost front = s@;
        s.append(last.as_str());
        proof {
            assert(front + last@ =~= decimal(n as nat));
        }
        s
    }
}

/// A signed number in decimal.
pub fn decimal_of_signed(n: i32) -> (r: String)
    ensures
        r@ == signed_decimal(n as int),
{
    let wide: i64 = n as i64;
    if wide < 0 {
        let s = decimal_of((-wide) as u64);
        proof {
            reveal_strlit("-");
            assert("-"@ =~= seq!['-']);
        }
        cat("-", s.as_str())
    } else {
        decimal_of(wide as u64)
    }
}

/// Different numbers have different decimals.
pub proof fn law_decimal_injective(a: nat, b: nat)
    requires
        decimal(a) == decimal(b),
    ensures
        a == b,
    decreases a,
{
    lemma_digit(a % 10);
    lemma_digit(b % 10);
    assert(decimal(a).last() == decimal(b).last());
    lemma_decimal_nonempty(a / 10);
    lemma_decimal_nonempty(b / 10);
    assert(decimal(a).last() == "0123456789"@[(a % 10) as int]);
    assert(decimal(b).last() == "0123456789"@[(b % 10) as int]);
    if a < 10 {
        assert(decimal(a).len() == 1);
        assert(b < 10);
    } else if b < 10 {
        assert(decimal(b).len() == 1);
    } else {
        assert(decimal(a).drop_last() =~= decimal(a / 10));
        assert(decimal(b).drop_last() =~= decimal(b / 10));
        law_decimal_injective(a / 10, b / 10);
    }
}

/// The digits follow each other in the character table.
proof fn lemma_digit(d: nat)
    requires
        d < 10,
    ensures
        "0123456789"@[d as int] as int == 48 + d,
{
    reveal_strlit("0123456789");
    let t = "0123456789"@;
    assert(t[0] == '0' && t[1] == '1' && t[2] == '2' && t[3] == '3' && t[4] == '4');
    assert(t[5] == '5' && t[6] == '6' && t[7] == '7' && t[8] == '8' && t[9] == '9');
}

proof fn lemma_decimal_nonempty(n: nat)
    ensures
        decimal(n).len() > 0,
    decreases n,
{
}

// ---- words ----------------------------------------------------------------

/// The maximal runs of characters that are not white space, in order.
pub open spec fn words(s: Seq<char>) -> Seq<Seq<char>>
    decreases s.len(),
{
    if s.len() == 0 {
        Seq::empty()
    } else {
        let before = words(s.drop_last());
        if white(s.last()) {
            before
        } else if s.len() == 1 || white(s[s.len() - 2]) {
            before.push(seq![s.last()])
        } else {
            before.drop_last().push(before.last().push(s.last()))
        }
    }
}

/// Words in a row with one space between neighbours.
pub open spec fn joined(ws: Seq<Seq<char>>) -> Seq<char>
    decreases ws.len(),
{
    if ws.len() == 0 {
        Seq::empty()
    } else if ws.len() == 1 {
        ws[0]
    } else {
        joined(ws.drop_last()).push(' ') + ws.last()
    }
}

/// A non-empty text without white space.
pub open spec fn is_word(w: Seq<char>) -> bool {
    &&& w.len() > 0
    &&& forall|i: int| 0 <= i < w.len() ==> !white(#[trigger] w[i])
}

/// The last run of `words` is the one that reaches the end of the text, so
/// there is one wherever the text does not end in white space.
proof fn lemma_words_nonempty(s: Seq<char>)
    requires
        s.len() > 0,
        !white(s.last()),
    ensures
        words(s).len() > 0,
{
}

/// The words of a string, in order.
pub fn split_words(s: &str) -> (r: Vec<String>)
    ensures
        model::views(r@) == words(s@),
{
    let v = chars_of(s);
    let mut out: Vec<String> = Vec::new();
    let mut i: usize = 0;
    let mut start: usize = 0;
    let ghost mut done: Seq<Seq<char>> = Seq::empty();
    proof {
        assert(model::views(out@) =~= Seq::empty());
        assert(s@.take(0) =~= Seq::empty());
    }
    while i < v.len()
        invariant
            start <= i <= v@.len(),
            v@ == s@,
            forall|k: int| start <= k < i ==> !white(#[trigger] s@[k]),
            start > 0 ==> white(s@[start - 1]),
            words(s@.take(i as int)) == (if start < i {
                model::views(out@).push(s@.subrange(start as int, i as int))
            } else {
                model::views(out@)
            }),
        decreases v@.len() - i,
    {
        proof {
            model::lemma_take_step(s@, i as int);
            if i > 0 {
                assert(s@.take(i + 1)[i - 1] == s@[i - 1]);
            }
        }
        if is_white(v[i]) {
            if start < i {
                let w = between(s, start, i);
                proof {
                    model::lemma_views_push(out@, w);
                }
                out.push(w);
            }
            start = i + 1;
        } else {
            proof {
                if start < i {
                    let before = words(s@.take(i as int));
                    assert(before.last() == s@.subrange(start as int, i as int));
                    assert(before.drop_last() =~= model::views(out@));
                    assert(s@.subrange(start as int, i as int).push(s@[i as int])
                        =~= s@.subrange(start as int, i + 1));
                } else {
                    assert(seq![s@[i as int]] =~= s@.subrange(start as int, i + 1));
                }
            }
        }
        i = i + 1;
    }
    proof {
        model::lemma_take_all(s@);
    }
    if start < i {
        let w = between(s, start, i);
        proof {
            model::lemma_views_push(out@, w);
        }
        out.push(w);
    }
    out
}

/// Words joined by single spaces.
pub fn join_words(ws: &Vec<String>) -> (r: String)
    ensures
        r@ == joined(model::views(ws@)),
{
    let mut s: String = String::new();
    let ghost all = model::views(ws@);
    let mut i: usize = 0;
    proof {
        assert(all.take(0) =~= Seq::empty());
        reveal_strlit(" ");
    }
    while i < ws.len()
        invariant
            i <= ws@.len(),
            all == model::views(ws@),
            " "@ == seq![' '],
            s@ == joined(all.take(i as int)),
        decreases ws@.len() - i,
    {
        let ghost before = s@;
        proof {
            model::lemma_take_step(all, i as int);
        }
        if i > 0 {
            s.append(" ");
        }
        s.append(ws[i].as_str());
        proof {
            if i == 0 {
                assert(all.take(1)[0] == all[0]);
                assert(s@ =~= all[0]);
            } else {
                assert(before + seq![' '] =~= before.push(' '));
            }
        }
        i = i + 1;
    }
    proof {
        model::lemma_take_all(all);
    }
    s
}

/// Words joined by spaces split back into the same words.
pub proof fn law_words_of_joined(ws: Seq<Seq<char>>)
    requires
        forall|i: int| 0 <= i < ws.len() ==> is_word(#[trigger] ws[i]),
    ensures
        words(joined(ws)) == ws,
    decreases ws.len(),
{
    if ws.len() == 0 {
        assert(ws =~= Seq::empty());
    } else if ws.len() == 1 {
        lemma_words_append(Seq::empty(), ws[0], ws[0].len() as int);
        assert(Seq::<char>::empty() + ws[0].take(ws[0].len() as int) =~= ws[0]);
        assert(words(Seq::<char>::empty()).push(ws[0].take(ws[0].len() as int)) =~= ws);
    } else {
        let front = joined(ws.drop_last());
        law_words_of_joined(ws.drop_last());
        let spaced = front.push(' ');
        assert(spaced.drop_last() =~= front);
        assert(words(spaced) == words(front));
        let w = ws.last();
        assert(is_word(ws[ws.len() - 1]));
        lemma_words_append(spaced, w, w.len() as int);
        assert(w.take(w.len() as int) =~= w);
        assert(ws.drop_last().push(w) =~= ws);
    }
}

/// A run of other characters after white space is one more word.
proof fn lemma_words_append(s: Seq<char>, w: Seq<char>, n: int)
    requires
        s.len() == 0 || white(s.last()),
        is_word(w),
        1 <= n <= w.len(),
    ensures
        words(s + w.take(n)) == words(s).push(w.take(n)),
    decreases n,
{
    let all = s + w.take(n);
    assert(all.last() == w[n - 1]);
    if n == 1 {
        assert(all.drop_last() =~= s);
        assert(w.take(1) =~= seq![w[0]]);
    } else {
        lemma_words_append(s, w, n - 1);
        model::lemma_take_step(w, n - 1);
        assert(all.drop_last() =~= s + w.take(n - 1));
        assert(all[all.len() - 2] == w[n - 2]);
        assert(words(s).push(w.take(n - 1)).drop_last() =~= words(s));
    }
}

/// Every run that `words` returns is a word.
pub proof fn lemma_words_are_words(s: Seq<char>)
    ensures
        forall|i: int| 0 <= i < words(s).len() ==> is_word(#[trigger] words(s)[i]),
    decreases s.len(),
{
    if s.len() > 0 {
        lemma_words_are_words(s.drop_last());
        let before = words(s.drop_last());
        if !white(s.last()) && s.len() > 1 && !white(s[s.len() - 2]) {
            lemma_words_nonempty(s.drop_last());
            assert(is_word(before[before.len() - 1]));
        }
    }
}

// ---- laws -----------------------------------------------------------------

/// Trimming takes off white space and nothing else: what is left is a stretch
/// of the text with only white space before and behind it, and it neither
/// starts nor ends in white space.
pub proof fn law_trimming_takes_white_space_only(s: Seq<char>)
    ensures
        exists|from: int, to: int|
            {
                &&& 0 <= from <= to <= s.len()
                &&& trimmed(s) == #[trigger] s.subrange(from, to)
                &&& forall|i: int| 0 <= i < from ==> white(#[trigger] s[i])
                &&& forall|i: int| to <= i < s.len() ==> white(#[trigger] s[i])
            },
        trimmed(s).len() > 0 ==> !white(trimmed(s)[0]) && !white(trimmed(s)[trimmed(s).len() - 1]),
{
    lemma_trim_end(s);
    let t = trim_end(s);
    lemma_trim_start(t);
    lemma_trimmed(s);
    let to = t.len() as int;
    let from = to - trim_start(t).len();
    assert(t.skip(from) =~= s.subrange(from, to));
    assert forall|i: int| 0 <= i < from implies white(#[trigger] s[i]) by {
        assert(t[i] == s[i]);
    }
}

/// White space separates words: the words of two texts with white space between
/// them are the words of the one and then those of the other; a run of other
/// characters is one word; and an empty text has none.
pub proof fn law_words_are_separated_by_white_space(a: Seq<char>, c: char, b: Seq<char>)
    ensures
        white(c) ==> words(a + seq![c] + b) == words(a) + words(b),
        is_word(a) ==> words(a) == seq![a],
        a.len() == 0 ==> words(a).len() == 0,
{
    if white(c) {
        lemma_words_of_parts(a, c, b);
    }
    if is_word(a) {
        let e = Seq::<char>::empty();
        lemma_words_append(e, a, a.len() as int);
        assert(e + a.take(a.len() as int) =~= a);
        assert(a.take(a.len() as int) =~= a);
        assert(words(e).push(a) =~= seq![a]);
    }
}

proof fn lemma_words_of_parts(a: Seq<char>, c: char, b: Seq<char>)
    requires
        white(c),
    ensures
        words(a + seq![c] + b) == words(a) + words(b),
    decreases b.len(),
{
    let s = a + seq![c] + b;
    if b.len() == 0 {
        assert(s.drop_last() =~= a);
        assert(s.last() == c);
        assert(words(a) + words(b) =~= words(a));
    } else {
        let front = b.drop_last();
        lemma_words_of_parts(a, c, front);
        assert(s.drop_last() =~= a + seq![c] + front);
        assert(s.last() == b.last());
        let left = words(a);
        let right = words(front);
        if !white(b.last()) {
            if b.len() == 1 {
                assert(s[s.len() - 2] == c);
                assert(words(b) =~= right.push(seq![b.last()]));
                assert((left + right).push(seq![b.last()]) =~= left + words(b));
            } else {
                assert(s[s.len() - 2] == b[b.len() - 2]);
                if white(b[b.len() - 2]) {
                    assert((left + right).push(seq![b.last()]) =~= left + words(b));
                } else {
                    lemma_words_nonempty(front);
                    assert((left + right).last() == right.last());
                    assert((left + right).drop_last() =~= left + right.drop_last());
                    assert((left + right).drop_last().push(right.last().push(b.last())) =~= left
                        + words(b));
                }
            }
        }
    }
}

/// The number that a row of decimal digits stands for.
pub open spec fn value_of(digits: Seq<char>) -> int
    decreases digits.len(),
{
    if digits.len() == 0 {
        0
    } else {
        10 * value_of(digits.drop_last()) + (digits.last() as int - 48)
    }
}

/// A decimal is made of digits, starts with no needless zero, and stands for
/// its number.
pub proof fn law_decimal_stands_for_its_number(n: nat)
    ensures
        value_of(decimal(n)) == n,
        decimal(n).len() > 0,
        forall|i: int| 0 <= i < decimal(n).len() ==> 48 <= (#[trigger] decimal(n)[i]) as int <= 57,
        n > 0 ==> decimal(n)[0] as int != 48,
        n == 0 ==> decimal(n).len() == 1,
    decreases n,
{
    let d = decimal(n);
    lemma_digit(n % 10);
    if n < 10 {
        assert(d.drop_last() =~= Seq::empty());
        assert(value_of(d.drop_last()) == 0);
    } else {
        law_decimal_stands_for_its_number(n / 10);
        let front = decimal(n / 10);
        assert(d.drop_last() =~= front);
        assert forall|i: int| 0 <= i < d.len() implies 48 <= (#[trigger] d[i]) as int <= 57 by {
            if i < front.len() {
                assert(d[i] == front[i]);
            }
        }
        assert(d[0] == front[0]);
    }
}

/// A negative number is a minus sign and the decimal of its size.
pub proof fn law_signs(n: nat)
    ensures
        signed_decimal(n as int) == decimal(n),
        n > 0 ==> signed_decimal(-(n as int)) == seq!['-'] + decimal(n),
{
}

/// The base name is the last component of a path: it holds no slash, a slash or
/// nothing stands before it, and only slashes stand behind it. A path of
/// slashes alone has none, and is called `/`.
pub proof fn law_base_name_is_the_last_component(p: Seq<char>)
    ensures
        (forall|i: int| 0 <= i < p.len() ==> #[trigger] p[i] == '/') ==> base_name(p) == seq!['/'],
        (exists|i: int| 0 <= i < p.len() && #[trigger] p[i] != '/') ==> exists|from: int, to: int|
            {
                &&& 0 <= from < to <= p.len()
                &&& base_name(p) == #[trigger] p.subrange(from, to)
                &&& from > 0 ==> p[from - 1] == '/'
                &&& forall|i: int| from <= i < to ==> #[trigger] p[i] != '/'
                &&& forall|i: int| to <= i < p.len() ==> #[trigger] p[i] == '/'
            },
{
    lemma_without_slashes(p);
    let q = without_slashes(p);
    let to = q.len() as int;
    if q.len() > 0 {
        lemma_after_slash(q);
        let from = to - after_slash(q).len();
        assert(after_slash(q) =~= p.subrange(from, to)) by {
            assert(q.skip(from) =~= p.subrange(from, to));
        }
        assert(p[to - 1] == q.last());
        assert forall|i: int| from <= i < to implies #[trigger] p[i] != '/' by {
            assert(after_slash(q)[i - from] == p[i]);
        }
        if from > 0 {
            assert(q[from - 1] == p[from - 1]);
        }
    }
}

proof fn lemma_without_slashes(p: Seq<char>)
    ensures
        without_slashes(p).len() <= p.len(),
        without_slashes(p) == p.take(without_slashes(p).len() as int),
        without_slashes(p).len() > 0 ==> without_slashes(p).last() != '/',
        forall|i: int| without_slashes(p).len() <= i < p.len() ==> #[trigger] p[i] == '/',
    decreases p.len(),
{
    if p.len() > 0 && p.last() == '/' {
        let front = p.drop_last();
        lemma_without_slashes(front);
        let n = without_slashes(p).len() as int;
        assert(front.take(n) =~= p.take(n));
        assert forall|i: int| n <= i < p.len() implies #[trigger] p[i] == '/' by {
            if i < front.len() {
                assert(front[i] == p[i]);
            }
        }
    } else {
        assert(p.take(p.len() as int) =~= p);
    }
}

proof fn lemma_after_slash(p: Seq<char>)
    ensures
        after_slash(p).len() <= p.len(),
        after_slash(p) == p.skip(p.len() - after_slash(p).len()),
        forall|i: int| 0 <= i < after_slash(p).len() ==> #[trigger] after_slash(p)[i] != '/',
        after_slash(p).len() < p.len() ==> p[p.len() - after_slash(p).len() - 1] == '/',
        p.len() > 0 && p.last() != '/' ==> after_slash(p).len() > 0,
    decreases p.len(),
{
    if p.len() == 0 || p.last() == '/' {
        assert(p.skip(p.len() as int) =~= Seq::empty());
    } else {
        let front = p.drop_last();
        lemma_after_slash(front);
        let tail = after_slash(p);
        assert(tail =~= p.skip(p.len() - tail.len()));
        assert forall|i: int| 0 <= i < tail.len() implies #[trigger] tail[i] != '/' by {
            if i < after_slash(front).len() {
                assert(after_slash(front)[i] == tail[i]);
            }
        }
        if tail.len() < p.len() {
            assert(front[front.len() - after_slash(front).len() - 1] == p[p.len() - tail.len() - 1]);
        }
    }
}

/// Only line ends are cut off the end of a line, and all of them.
pub proof fn law_chomp_takes_line_ends_only(s: Seq<char>)
    ensures
        chomped(s).len() <= s.len(),
        chomped(s) == s.take(chomped(s).len() as int),
        forall|i: int|
            chomped(s).len() <= i < s.len() ==> #[trigger] s[i] == '\n' || s[i] == '\r',
        chomped(s).len() > 0 ==> chomped(s).last() != '\n' && chomped(s).last() != '\r',
    decreases s.len(),
{
    if s.len() > 0 && (s.last() == '\n' || s.last() == '\r') {
        let front = s.drop_last();
        law_chomp_takes_line_ends_only(front);
        let n = chomped(s).len() as int;
        assert(front.take(n) =~= s.take(n));
        assert forall|i: int| n <= i < s.len() implies #[trigger] s[i] == '\n' || s[i] == '\r' by {
            if i < front.len() {
                assert(front[i] == s[i]);
            }
        }
    } else {
        assert(s.take(s.len() as int) =~= s);
    }
}

/// Cutting a text leaves its beginning, as long as it may be.
pub proof fn law_cut_leaves_the_beginning(s: Seq<char>, max: nat)
    ensures
        capped(s, max).len() == (if s.len() < max {
            s.len()
        } else {
            max
        }),
        forall|i: int| 0 <= i < capped(s, max).len() ==> #[trigger] capped(s, max)[i] == s[i],
{
}

/// Joined words stand one space apart, in their order.
pub proof fn law_joined_words_stand_one_space_apart(ws: Seq<Seq<char>>, w: Seq<char>)
    ensures
        joined(seq![w]) == w,
        ws.len() > 0 ==> joined(ws.push(w)) == joined(ws) + seq![' '] + w,
        joined(Seq::empty()).len() == 0,
{
    if ws.len() > 0 {
        assert(ws.push(w).drop_last() =~= ws);
        assert(joined(ws).push(' ') + w =~= joined(ws) + seq![' '] + w);
    }
}

/// A text holds another one exactly where it can be cut into something before
/// it, the other text, and something behind it.
pub proof fn law_text_holds_its_parts(s: Seq<char>, part: Seq<char>, a: Seq<char>, b: Seq<char>)
    ensures
        s == a + part + b ==> holds(s, part),
        holds(s, part) ==> exists|x: Seq<char>, y: Seq<char>| s == #[trigger] (x + part + y),
{
    if s == a + part + b {
        assert(s.subrange(a.len() as int, a.len() as int + part.len()) =~= part);
        assert(holds_at(s, part, a.len() as int));
    }
    if holds(s, part) {
        let i = choose|i: int| #[trigger] holds_at(s, part, i);
        let x = s.subrange(0, i);
        let y = s.subrange(i + part.len(), s.len() as int);
        assert(s =~= x + part + y);
    }
}

/// White space is exactly what Unicode calls so: the blank and the controls that
/// move on, the spaces of fixed widths, the two separators, and the two spaces
/// that do not break.
pub proof fn law_white_space_of_unicode(c: char)
    ensures
        white(c) <==> {
            ||| c == ' ' || c == '\t' || c == '\n' || c == '\u{b}' || c == '\u{c}' || c == '\r'
            ||| c == '\u{85}' || c == '\u{a0}' || c == '\u{1680}'
            ||| '\u{2000}' <= c <= '\u{200a}'
            ||| c == '\u{2028}' || c == '\u{2029}' || c == '\u{202f}' || c == '\u{205f}'
            ||| c == '\u{3000}'
        },
{
}

/// Control codes are the first 32 characters, and the 33 from delete on.
pub proof fn law_control_codes_of_unicode(c: char)
    ensures
        control(c) <==> (c as int) < 32 || 127 <= (c as int) < 127 + 33,
{
}

/// Lengths in bytes are those of UTF-8.
pub proof fn law_bytes_are_those_of_utf8(s: Seq<char>)
    ensures
        byte_len(s) == utf8::encode_utf8(s).len(),
        utf8::is_ascii_chars(s) ==> byte_len(s) == s.len(),
{
    if utf8::is_ascii_chars(s) {
        utf8::is_ascii_chars_encode_utf8(s);
    }
}

} // verus!
