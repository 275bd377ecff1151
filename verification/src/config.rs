//! The options of the application, as the text of the options file holds
//! them.
//!
//! The file is made of lines. A line with an equals sign gives one option:
//! the key is what stands before the first equals sign, the value is what
//! follows it. Other lines say nothing. Of two lines with one key the first
//! counts.

use vstd::prelude::*;
use vstd::slice::{slice_subrange, slice_to_vec};

verus! {

/// The byte that ends a line.
pub const NEWLINE: u8 = 0x0a;

/// The byte that parts a key from its value.
pub const EQUALS: u8 = 0x3d;

/// The width of the window where the options give none.
pub const DEFAULT_WIDTH: u32 = 1600;

/// The height of the window where the options give none.
pub const DEFAULT_HEIGHT: u32 = 900;

/// `n` is the place of the first `b` in `s`.
pub open spec fn is_first_at(s: Seq<u8>, b: u8, n: int) -> bool {
    &&& 0 <= n < s.len()
    &&& s[n] == b
    &&& forall|j: int| 0 <= j < n ==> s[j] != b
}

/// The place of the first `b` in `s`; the length of `s` where it holds none.
pub open spec fn first_or_end(s: Seq<u8>, b: u8) -> int {
    if exists|n: int| is_first_at(s, b, n) {
        choose|n: int| is_first_at(s, b, n)
    } else {
        s.len() as int
    }
}

/// The first `b` of a sequence has one place.
pub proof fn lemma_first_is_unique(s: Seq<u8>, b: u8, n: int)
    requires
        is_first_at(s, b, n),
    ensures
        first_or_end(s, b) == n,
{
    let m = choose|m: int| is_first_at(s, b, m);
    assert(is_first_at(s, b, m));
    if m < n {
        assert(s[m] != b);
    } else if n < m {
        assert(s[n] != b);
    }
}

/// A sequence without `b` has no first `b`.
pub proof fn lemma_no_first(s: Seq<u8>, b: u8)
    requires
        forall|j: int| 0 <= j < s.len() ==> s[j] != b,
    ensures
        first_or_end(s, b) == s.len(),
{
    if exists|n: int| is_first_at(s, b, n) {
        let n = choose|n: int| is_first_at(s, b, n);
        assert(is_first_at(s, b, n));
    }
}

/// The option that a line gives, if it gives one.
pub open spec fn entry_of(line: Seq<u8>) -> Option<(Seq<u8>, Seq<u8>)> {
    let at = first_or_end(line, EQUALS);
    if at < line.len() {
        Some((line.take(at), line.skip(at + 1)))
    } else {
        None
    }
}

/// `entries` with the option of `line` at its end, if the line gives one.
pub open spec fn with_line(entries: Seq<(Seq<u8>, Seq<u8>)>, line: Seq<u8>) -> Seq<
    (Seq<u8>, Seq<u8>),
> {
    match entry_of(line) {
        Some(entry) => entries.push(entry),
        None => entries,
    }
}

/// The options that the lines of `text` give after those of `acc`, in the
/// order of the lines.
pub open spec fn entries_of(text: Seq<u8>, acc: Seq<(Seq<u8>, Seq<u8>)>) -> Seq<(Seq<u8>, Seq<u8>)>
    decreases text.len(),
{
    if text.len() == 0 {
        acc
    } else {
        let end = first_or_end(text, NEWLINE);
        if 0 <= end < text.len() {
            entries_of(text.skip(end + 1), with_line(acc, text.take(end)))
        } else {
            with_line(acc, text)
        }
    }
}

/// The value of the first option with the key `key`.
pub open spec fn lookup(entries: Seq<(Seq<u8>, Seq<u8>)>, key: Seq<u8>) -> Option<Seq<u8>>
    decreases entries.len(),
{
    if entries.len() == 0 {
        None
    } else if entries.first().0 == key {
        Some(entries.first().1)
    } else {
        lookup(entries.drop_first(), key)
    }
}

/// The number that the decimal digits `digits` spell, if they are digits,
/// at least one, and the number fits a u32.
pub open spec fn number_of(digits: Seq<u8>) -> Option<u32>
    decreases digits.len(),
{
    if digits.len() == 0 {
        None
    } else if !(0x30 <= digits.last() <= 0x39) {
        None
    } else if digits.len() == 1 {
        Some((digits.last() - 0x30) as u32)
    } else {
        match number_of(digits.drop_last()) {
            None => None,
            Some(high) => if high * 10 + (digits.last() - 0x30) <= u32::MAX {
                Some((high * 10 + (digits.last() - 0x30)) as u32)
            } else {
                None
            },
        }
    }
}

/// The bytes of `true`.
pub open spec fn true_text() -> Seq<u8> {
    seq![0x74u8, 0x72u8, 0x75u8, 0x65u8]
}

/// The bytes of `false`.
pub open spec fn false_text() -> Seq<u8> {
    seq![0x66u8, 0x61u8, 0x6cu8, 0x73u8, 0x65u8]
}

/// What `text` says of a switch: `true` or `false`, and nothing else.
pub open spec fn switch_of(text: Seq<u8>) -> Option<bool> {
    if text == true_text() {
        Some(true)
    } else if text == false_text() {
        Some(false)
    } else {
        None
    }
}

/// The number that `digits` spell.
pub fn parse_u32(digits: &[u8]) -> (r: Option<u32>)
    ensures
        r == number_of(digits@),
{
    if digits.len() == 0 {
        return None;
    }
    let mut value: u32 = 0;
    let mut i: usize = 0;
    while i < digits.len()
        invariant
            i <= digits@.len(),
            i > 0 ==> number_of(digits@.take(i as int)) == Some(value),
            i == 0 ==> value == 0,
        decreases digits@.len() - i,
    {
        let d = digits[i];
        proof {
            let upto = digits@.take(i + 1);
            assert(upto.drop_last() =~= digits@.take(i as int));
            assert(upto.last() == d);
            lemma_number_of_prefix(digits@, i + 1);
        }
        if d < 0x30 || d > 0x39 {
            return None;
        }
        let digit = (d - 0x30) as u32;
        if value > (u32::MAX - digit) / 10 {
            return None;
        }
        value = value * 10 + digit;
        i += 1;
    }
    assert(digits@.take(i as int) =~= digits@);
    Some(value)
}

/// Digits of which a part at the front spells no number spell no number.
proof fn lemma_number_of_prefix(digits: Seq<u8>, n: int)
    requires
        0 < n <= digits.len(),
    ensures
        number_of(digits.take(n)) is None ==> number_of(digits) is None,
    decreases digits.len(),
{
    if n < digits.len() {
        assert(digits.drop_last().take(n) =~= digits.take(n));
        lemma_number_of_prefix(digits.drop_last(), n);
    } else {
        assert(digits.take(n) =~= digits);
    }
}

/// What `text` says of a switch.
pub fn parse_bool(text: &[u8]) -> (r: Option<bool>)
    ensures
        r == switch_of(text@),
{
    if text.len() == 4 && text[0] == 0x74 && text[1] == 0x72 && text[2] == 0x75 && text[3] == 0x65 {
        assert(text@ =~= true_text());
        Some(true)
    } else if text.len() == 5 && text[0] == 0x66 && text[1] == 0x61 && text[2] == 0x6c && text[3]
        == 0x73 && text[4] == 0x65 {
        assert(text@ =~= false_text());
        Some(false)
    } else {
        assert(text@ != true_text()) by {
            if text@.len() == 4 {
                assert(true_text()[0] == 0x74 && true_text()[1] == 0x72 && true_text()[2] == 0x75
                    && true_text()[3] == 0x65);
            }
        }
        assert(text@ != false_text()) by {
            if text@.len() == 5 {
                assert(false_text()[0] == 0x66 && false_text()[1] == 0x61 && false_text()[2]
                    == 0x6c && false_text()[3] == 0x73 && false_text()[4] == 0x65);
            }
        }
        None
    }
}

/// The place of the first `b` in `s` from `from` on, or the length of `s`.
fn find_byte(s: &[u8], from: usize, b: u8) -> (r: usize)
    requires
        from <= s@.len(),
    ensures
        from <= r <= s@.len(),
        r - from == first_or_end(s@.skip(from as int), b),
{
    let ghost rest = s@.skip(from as int);
    let mut at: usize = from;
    while at < s.len()
        invariant
            from <= at <= s@.len(),
            rest == s@.skip(from as int),
            forall|j: int| 0 <= j < at - from ==> rest[j] != b,
        decreases s@.len() - at,
    {
        assert(rest[at - from] == s@[at as int]);
        if s[at] == b {
            proof {
                lemma_first_is_unique(rest, b, at - from);
            }
            return at;
        }
        at += 1;
    }
    proof {
        lemma_no_first(rest, b);
    }
    at
}

/// Whether two byte strings are the same.
fn same_bytes(a: &[u8], b: &[u8]) -> (r: bool)
    ensures
        r == (a@ == b@),
{
    if a.len() != b.len() {
        return false;
    }
    let mut i: usize = 0;
    while i < a.len()
        invariant
            i <= a@.len(),
            a@.len() == b@.len(),
            forall|j: int| 0 <= j < i ==> a@[j] == b@[j],
        decreases a@.len() - i,
    {
        if a[i] != b[i] {
            return false;
        }
        i += 1;
    }
    assert(a@ =~= b@);
    true
}

/// The options.
pub struct Config {
    entries: Vec<(Vec<u8>, Vec<u8>)>,
}

/// The options as mathematical values: keys and values in their order.
pub open spec fn plain(entries: Seq<(Vec<u8>, Vec<u8>)>) -> Seq<(Seq<u8>, Seq<u8>)> {
    entries.map_values(|e: (Vec<u8>, Vec<u8>)| (e.0@, e.1@))
}

impl View for Config {
    type V = Seq<(Seq<u8>, Seq<u8>)>;

    closed spec fn view(&self) -> Seq<(Seq<u8>, Seq<u8>)> {
        plain(self.entries@)
    }
}

impl Config {
    /// No option at all.
    pub fn new() -> (r: Config)
        ensures
            r@ == Seq::<(Seq<u8>, Seq<u8>)>::empty(),
    {
        let r = Config { entries: Vec::new() };
        assert(r@ =~= Seq::<(Seq<u8>, Seq<u8>)>::empty());
        r
    }

    /// The options that `text` gives.
    pub fn parse(text: &[u8]) -> (r: Config)
        ensures
            r@ == entries_of(text@, Seq::empty()),
    {
        let mut entries: Vec<(Vec<u8>, Vec<u8>)> = Vec::new();
        let mut pos: usize = 0;
        assert(plain(entries@) =~= Seq::<(Seq<u8>, Seq<u8>)>::empty());
        assert(text@.skip(0) =~= text@);
        while pos < text.len()
            invariant
                pos <= text@.len(),
                entries_of(text@, Seq::empty()) == entries_of(text@.skip(pos as int), plain(entries@)),
            decreases text@.len() - pos,
        {
            let end = find_byte(text, pos, NEWLINE);
            let line = slice_subrange(text, pos, end);
            let ghost rest = text@.skip(pos as int);
            assert(line@ =~= rest.take(end - pos));
            proof {
                if end == text@.len() {
                    assert(line@ =~= rest);
                }
            }
            let eq = find_byte(line, 0, EQUALS);
            assert(line@.skip(0) =~= line@);
            if eq < line.len() {
                let key = slice_to_vec(slice_subrange(line, 0, eq));
                let value = slice_to_vec(slice_subrange(line, eq + 1, line.len()));
                let ghost before = plain(entries@);
                entries.push((key, value));
                assert(plain(entries@) =~= before.push((key@, value@)));
                assert(line@.take(eq as int) =~= key@);
                assert(line@.skip(eq + 1) =~= value@);
            }
            if end < text.len() {
                assert(rest.skip(end - pos + 1) =~= text@.skip(end + 1));
                pos = end + 1;
            } else {
                assert(text@.skip(end as int).len() == 0);
                pos = end;
            }
        }
        Config { entries }
    }

    /// The value of the option `key`.
    pub fn get(&self, key: &[u8]) -> (r: Option<&Vec<u8>>)
        ensures
            match lookup(self@, key@) {
                Some(value) => r is Some && r->Some_0@ == value,
                None => r is None,
            },
    {
        let mut i: usize = 0;
        assert(self@.skip(0) =~= self@);
        while i < self.entries.len()
            invariant
                i <= self.entries@.len(),
                lookup(self@, key@) == lookup(self@.skip(i as int), key@),
            decreases self.entries@.len() - i,
        {
            let ghost rest = self@.skip(i as int);
            assert(rest.first() == (self.entries@[i as int].0@, self.entries@[i as int].1@));
            assert(rest.drop_first() =~= self@.skip(i + 1));
            if same_bytes(self.entries[i].0.as_slice(), key) {
                return Some(&self.entries[i].1);
            }
            i += 1;
        }
        None
    }

    /// The value of the option `key`. Where the options have none, `default`
    /// becomes its value.
    pub fn or_default(&mut self, key: &[u8], default: &[u8]) -> (r: Vec<u8>)
        ensures
            r@ == (match lookup(old(self)@, key@) {
                Some(value) => value,
                None => default@,
            }),
            final(self)@ == (match lookup(old(self)@, key@) {
                Some(_) => old(self)@,
                None => old(self)@.push((key@, default@)),
            }),
    {
        match self.get(key) {
            Some(value) => slice_to_vec(value.as_slice()),
            None => {
                let ghost before = plain(self.entries@);
                let key = slice_to_vec(key);
                let value = slice_to_vec(default);
                self.entries.push((key, value));
                assert(plain(self.entries@) =~= before.push((key@, default@)));
                slice_to_vec(default)
            },
        }
    }

    /// The number that the option `key` gives, or that `default` gives where
    /// the options have none, which then becomes its value. Nothing where
    /// the value is no number.
    pub fn u32_or_default(&mut self, key: &[u8], default: &[u8]) -> (r: Option<u32>)
        ensures
            r == number_of(
                match lookup(old(self)@, key@) {
                    Some(value) => value,
                    None => default@,
                },
            ),
            final(self)@ == (match lookup(old(self)@, key@) {
                Some(_) => old(self)@,
                None => old(self)@.push((key@, default@)),
            }),
    {
        let value = self.or_default(key, default);
        parse_u32(value.as_slice())
    }

    /// What the option `key` says of a switch, or what `default` says where
    /// the options have none, which then becomes its value. Nothing where
    /// the value is neither `true` nor `false`.
    pub fn bool_or_default(&mut self, key: &[u8], default: &[u8]) -> (r: Option<bool>)
        ensures
            r == switch_of(
                match lookup(old(self)@, key@) {
                    Some(value) => value,
                    None => default@,
                },
            ),
            final(self)@ == (match lookup(old(self)@, key@) {
                Some(_) => old(self)@,
                None => old(self)@.push((key@, default@)),
            }),
    {
        let value = self.or_default(key, default);
        parse_bool(value.as_slice())
    }

    /// The text of an options file that gives these options.
    pub fn to_text(&self) -> (r: Vec<u8>)
        ensures
            r@ == text_of(self@),
    {
        let mut text: Vec<u8> = Vec::new();
        let mut i: usize = 0;
        assert(self@.take(0) =~= Seq::<(Seq<u8>, Seq<u8>)>::empty());
        while i < self.entries.len()
            invariant
                i <= self.entries@.len(),
                text@ == text_of(self@.take(i as int)),
            decreases self.entries@.len() - i,
        {
            let ghost before = text@;
            let ghost upto = self@.take(i + 1);
            assert(upto.drop_last() =~= self@.take(i as int));
            assert(upto.last() == (self.entries@[i as int].0@, self.entries@[i as int].1@));
            text.extend_from_slice(self.entries[i].0.as_slice());
            text.push(EQUALS);
            text.extend_from_slice(self.entries[i].1.as_slice());
            text.push(NEWLINE);
            assert(text@ =~= before + line_of(upto.last()));
            i += 1;
        }
        assert(self@.take(i as int) =~= self@);
        text
    }
}

/// The line that gives the option `entry`.
pub open spec fn line_of(entry: (Seq<u8>, Seq<u8>)) -> Seq<u8> {
    entry.0.push(EQUALS) + entry.1.push(NEWLINE)
}

/// The text that gives the options `entries`, one line for each.
pub open spec fn text_of(entries: Seq<(Seq<u8>, Seq<u8>)>) -> Seq<u8>
    decreases entries.len(),
{
    if entries.len() == 0 {
        Seq::empty()
    } else {
        text_of(entries.drop_last()) + line_of(entries.last())
    }
}

/// An option that a line can give: its key holds no equals sign and no
/// line break, its value no line break.
pub open spec fn entry_ok(entry: (Seq<u8>, Seq<u8>)) -> bool {
    &&& forall|i: int| 0 <= i < entry.0.len() ==> entry.0[i] != EQUALS && entry.0[i] != NEWLINE
    &&& forall|i: int| 0 <= i < entry.1.len() ==> entry.1[i] != NEWLINE
}

/// The text of options starts with the line of the first.
proof fn lemma_text_of_first(entries: Seq<(Seq<u8>, Seq<u8>)>)
    requires
        entries.len() > 0,
    ensures
        text_of(entries) == line_of(entries.first()) + text_of(entries.drop_first()),
    decreases entries.len(),
{
    if entries.len() == 1 {
        assert(entries.drop_last() =~= Seq::<(Seq<u8>, Seq<u8>)>::empty());
        assert(entries.drop_first() =~= Seq::<(Seq<u8>, Seq<u8>)>::empty());
        assert(text_of(entries) =~= line_of(entries.first()) + text_of(entries.drop_first()));
    } else {
        let front = entries.drop_last();
        lemma_text_of_first(front);
        assert(front.drop_first() =~= entries.drop_first().drop_last());
        assert(front.first() == entries.first());
        assert(entries.drop_first().last() == entries.last());
        assert(text_of(entries) =~= line_of(entries.first()) + text_of(entries.drop_first()));
    }
}

/// The line of an option is read as that option, and what follows the line
/// is read after it.
proof fn lemma_line_round_trip(
    entry: (Seq<u8>, Seq<u8>),
    rest: Seq<u8>,
    acc: Seq<(Seq<u8>, Seq<u8>)>,
)
    requires
        entry_ok(entry),
    ensures
        entries_of(line_of(entry) + rest, acc) == entries_of(rest, acc.push(entry)),
{
    let text = line_of(entry) + rest;
    let line = entry.0.push(EQUALS) + entry.1;
    let end = line.len() as int;
    assert(is_first_at(text, NEWLINE, end));
    lemma_first_is_unique(text, NEWLINE, end);
    assert(text.take(end) =~= line);
    assert(text.skip(end + 1) =~= rest);
    assert(is_first_at(line, EQUALS, entry.0.len() as int));
    lemma_first_is_unique(line, EQUALS, entry.0.len() as int);
    assert(line.take(entry.0.len() as int) =~= entry.0);
    assert(line.skip(entry.0.len() as int + 1) =~= entry.1);
    if rest.len() == 0 {
        assert(entries_of(rest, acc.push(entry)) == acc.push(entry));
    }
}

/// The text of options is read as those options.
proof fn lemma_text_round_trip(entries: Seq<(Seq<u8>, Seq<u8>)>, acc: Seq<(Seq<u8>, Seq<u8>)>)
    requires
        forall|i: int| 0 <= i < entries.len() ==> entry_ok(#[trigger] entries[i]),
    ensures
        entries_of(text_of(entries), acc) == acc + entries,
    decreases entries.len(),
{
    if entries.len() == 0 {
        assert(acc + entries =~= acc);
    } else {
        lemma_text_of_first(entries);
        lemma_line_round_trip(entries.first(), text_of(entries.drop_first()), acc);
        lemma_text_round_trip(entries.drop_first(), acc.push(entries.first()));
        assert(acc.push(entries.first()) + entries.drop_first() =~= acc + entries);
    }
}

/// Options that were written are read back as they were.
pub proof fn lemma_config_round_trip(entries: Seq<(Seq<u8>, Seq<u8>)>)
    requires
        forall|i: int| 0 <= i < entries.len() ==> entry_ok(#[trigger] entries[i]),
    ensures
        entries_of(text_of(entries), Seq::empty()) == entries,
{
    lemma_text_round_trip(entries, Seq::empty());
    assert(Seq::<(Seq<u8>, Seq<u8>)>::empty() + entries =~= entries);
}

} // verus!
