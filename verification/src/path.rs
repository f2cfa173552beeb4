//! File-system safe names and ordinal names ("name (3)") for duplicates.
use vstd::prelude::*;
use vstd::hash_map::StringHashMap;
use crate::text::{chars_of, string_from_chars, string_push, str_lowercase, to_lowercase};

verus! {

/// The longest base name, in characters, that `file_system_safe_name` keeps.
pub const MAX_SAFE_NAME_CHARS: usize = 128;

/// Characters that most file systems reserve.
pub open spec fn is_reserved_char(c: char) -> bool {
    ||| c == '/'
    ||| c == '<'
    ||| c == '>'
    ||| c == ':'
    ||| c == '"'
    ||| c == '\\'
    ||| c == '|'
    ||| c == '?'
    ||| c == '*'
}

/// A character is replaced when it is a control character U+0001 through
/// U+001F or a reserved character.
pub open spec fn is_unsafe_char(c: char) -> bool {
    let code = c as u32;
    (1 <= code && code <= 31) || is_reserved_char(c)
}

pub open spec fn sanitize_char(c: char) -> char {
    if is_unsafe_char(c) { '_' } else { c }
}

pub open spec fn sanitized(s: Seq<char>) -> Seq<char> {
    s.map_values(|c: char| sanitize_char(c))
}

/// Drops every trailing space and period.
pub open spec fn trim_trailing_spaces_dots(s: Seq<char>) -> Seq<char>
    decreases s.len(),
{
    if s.len() > 0 && (s.last() == ' ' || s.last() == '.') {
        trim_trailing_spaces_dots(s.drop_last())
    } else {
        s
    }
}

pub open spec fn ascii_upper(c: char) -> char {
    if 'a' <= c && c <= 'z' { ((c as u32) - 32) as char } else { c }
}

pub open spec fn ascii_uppercased(s: Seq<char>) -> Seq<char> {
    s.map_values(|c: char| ascii_upper(c))
}

/// The DOS device names CON, PRN, AUX, NUL, COM1-COM9 and LPT1-LPT9, matched
/// ignoring ASCII case.
pub open spec fn is_dos_reserved_name(s: Seq<char>) -> bool {
    let u = ascii_uppercased(s);
    ||| u == seq!['C', 'O', 'N']
    ||| u == seq!['P', 'R', 'N']
    ||| u == seq!['A', 'U', 'X']
    ||| u == seq!['N', 'U', 'L']
    ||| (u.len() == 4 && ((u[0] == 'C' && u[1] == 'O' && u[2] == 'M') || (u[0] == 'L' && u[1]
        == 'P' && u[2] == 'T')) && '1' <= u[3] && u[3] <= '9')
}

pub open spec fn reserved_suffix() -> Seq<char> {
    seq!['_', 'r', 'e', 's', 'e', 'r', 'v', 'e', 'd']
}

/// The safe name of `s`, or `None` where nothing of the name survives.
pub open spec fn safe_name(s: Seq<char>) -> Option<Seq<char>> {
    let cut = if s.len() <= MAX_SAFE_NAME_CHARS { s } else { s.take(MAX_SAFE_NAME_CHARS as int) };
    let trimmed = trim_trailing_spaces_dots(sanitized(cut));
    let named = if is_dos_reserved_name(trimmed) { trimmed + reserved_suffix() } else { trimmed };
    if named.len() == 0 { None } else { Some(named) }
}

fn is_unsafe_char_exec(c: char) -> (b: bool)
    ensures
        b == is_unsafe_char(c),
{
    let code: u32 = c as u32;
    (1 <= code && code <= 31) || c == '/' || c == '<' || c == '>' || c == ':' || c == '"' || c
        == '\\' || c == '|' || c == '?' || c == '*'
}

fn upper_is(c: char, t: char) -> (b: bool)
    requires
        'A' <= t && t <= 'Z',
    ensures
        b == (ascii_upper(c) == t),
{
    c == t || (c as u32) == (t as u32) + 32
}

fn is_dos_reserved_name_exec(s: &Vec<char>) -> (b: bool)
    ensures
        b == is_dos_reserved_name(s@),
{
    let ghost u = ascii_uppercased(s@);
    if s.len() == 3 {
        let r = (upper_is(s[0], 'C') && upper_is(s[1], 'O') && upper_is(s[2], 'N')) || (upper_is(
            s[0],
            'P',
        ) && upper_is(s[1], 'R') && upper_is(s[2], 'N')) || (upper_is(s[0], 'A') && upper_is(
            s[1],
            'U',
        ) && upper_is(s[2], 'X')) || (upper_is(s[0], 'N') && upper_is(s[1], 'U') && upper_is(
            s[2],
            'L',
        ));
        proof {
            if r {
                assert(u =~= seq!['C', 'O', 'N'] || u =~= seq!['P', 'R', 'N'] || u =~= seq![
                    'A',
                    'U',
                    'X',
                ] || u =~= seq!['N', 'U', 'L']);
            } else {
                assert(u[0] == ascii_upper(s@[0]) && u[1] == ascii_upper(s@[1]) && u[2] == ascii_upper(s@[2]));
            }
        }
        r
    } else if s.len() == 4 {
        let d = s[3];
        let r = ((upper_is(s[0], 'C') && upper_is(s[1], 'O') && upper_is(s[2], 'M')) || (upper_is(
            s[0],
            'L',
        ) && upper_is(s[1], 'P') && upper_is(s[2], 'T'))) && '1' <= d && d <= '9';
        assert(u[3] == ascii_upper(d));
        assert(u[0] == ascii_upper(s@[0]) && u[1] == ascii_upper(s@[1]) && u[2] == ascii_upper(s@[2]));
        r
    } else {
        proof {
            if u.len() == 3 {
                assert(false);
            }
        }
        assert(u.len() != 3);
        assert(!(u =~= seq!['C', 'O', 'N']));
        false
    }
}

/// Given a desired file name (without directory or extension), maps it to a
/// similar name that is safe on most file systems: at most 128 characters,
/// control codes and reserved characters replaced by `_`, trailing spaces and
/// periods removed, DOS device names suffixed with `_reserved`. `None` when
/// nothing is left.
pub fn file_system_safe_name(desired_name: &str) -> (r: Option<String>)
    ensures
        match r {
            Some(name) => safe_name(desired_name@) == Some(name@),
            None => safe_name(desired_name@) is None,
        },
{
    let chars = chars_of(desired_name);
    let ghost cut = if desired_name@.len() <= MAX_SAFE_NAME_CHARS {
        desired_name@
    } else {
        desired_name@.take(MAX_SAFE_NAME_CHARS as int)
    };
    let n: usize = if chars.len() <= MAX_SAFE_NAME_CHARS { chars.len() } else { MAX_SAFE_NAME_CHARS };
    assert(cut =~= chars@.take(n as int));
    let mut result: Vec<char> = Vec::new();
    let mut i: usize = 0;
    while i < n
        invariant
            i <= n,
            n <= chars.len(),
            result@ == sanitized(chars@.take(i as int)),
        decreases n - i,
    {
        let c = chars[i];
        let s = if is_unsafe_char_exec(c) { '_' } else { c };
        result.push(s);
        i = i + 1;
        assert(result@ =~= sanitized(chars@.take(i as int)));
    }
    let ghost full = result@;
    assert(full == sanitized(cut));
    while result.len() > 0 && (result[result.len() - 1] == ' ' || result[result.len() - 1] == '.')
        invariant
            trim_trailing_spaces_dots(result@) == trim_trailing_spaces_dots(full),
        decreases result.len(),
    {
        assert(result@.drop_last() =~= result@.subrange(0, result@.len() - 1));
        result.pop();
    }
    assert(trim_trailing_spaces_dots(result@) == result@);
    if is_dos_reserved_name_exec(&result) {
        let ghost before = result@;
        result.push('_');
        result.push('r');
        result.push('e');
        result.push('s');
        result.push('e');
        result.push('r');
        result.push('v');
        result.push('e');
        result.push('d');
        assert(result@ =~= before + reserved_suffix());
    }
    if result.len() == 0 {
        None
    } else {
        Some(string_from_chars(&result))
    }
}


/// Unicode `White_Space` characters, as `char::is_whitespace` documents them.
pub open spec fn is_unicode_whitespace(c: char) -> bool {
    let u = c as u32;
    ||| (0x09 <= u && u <= 0x0D)
    ||| u == 0x20
    ||| u == 0x85
    ||| u == 0xA0
    ||| u == 0x1680
    ||| (0x2000 <= u && u <= 0x200A)
    ||| u == 0x2028
    ||| u == 0x2029
    ||| u == 0x202F
    ||| u == 0x205F
    ||| u == 0x3000
}

/// Drops trailing whitespace (`str::trim_end`).
pub open spec fn trim_end(s: Seq<char>) -> Seq<char>
    decreases s.len(),
{
    if s.len() > 0 && is_unicode_whitespace(s.last()) {
        trim_end(s.drop_last())
    } else {
        s
    }
}

/// The index of the last occurrence of `c` in `s`.
pub open spec fn last_index_of(s: Seq<char>, c: char) -> Option<int>
    decreases s.len(),
{
    if s.len() == 0 {
        None
    } else if s.last() == c {
        Some(s.len() - 1)
    } else {
        last_index_of(s.drop_last(), c)
    }
}

pub open spec fn is_ascii_digit(c: char) -> bool {
    '0' <= c && c <= '9'
}

pub open spec fn all_ascii_digits(s: Seq<char>) -> bool {
    forall|i: int| 0 <= i < s.len() ==> is_ascii_digit(#[trigger] s[i])
}

pub open spec fn digit_value(c: char) -> nat {
    ((c as u32) - ('0' as u32)) as nat
}

/// The number that a string of decimal digits denotes.
pub open spec fn digits_value(s: Seq<char>) -> nat
    decreases s.len(),
{
    if s.len() == 0 {
        0
    } else {
        digits_value(s.drop_last()) * 10 + digit_value(s.last())
    }
}

/// A name split into its stem and, where it ends in a parenthesised `u32`, that
/// number: `"bork (3)"` is stem `"bork"` with ordinal 3.
pub struct OrdinalName {
    pub stem: String,
    pub ordinal: Option<u32>,
}

/// The digits between the last `(` and a final `)`, when the name has both.
pub open spec fn ordinal_digits(name: Seq<char>) -> Option<(int, Seq<char>)> {
    match last_index_of(name, '(') {
        Some(p) => if name.len() > 0 && name.last() == ')' {
            Some((p, name.subrange(p + 1, name.len() - 1)))
        } else {
            None
        },
        None => None,
    }
}

/// Whether the name carries an ordinal that parses as a `u32`.
pub open spec fn has_ordinal(name: Seq<char>) -> bool {
    match ordinal_digits(name) {
        Some((p, d)) => d.len() > 0 && all_ascii_digits(d) && digits_value(d) <= u32::MAX,
        None => false,
    }
}

pub open spec fn ordinal_stem(name: Seq<char>) -> Seq<char> {
    if has_ordinal(name) {
        trim_end(name.take(ordinal_digits(name)->Some_0.0))
    } else {
        name
    }
}

pub open spec fn ordinal_of(name: Seq<char>) -> Option<u32> {
    if has_ordinal(name) {
        Some(digits_value(ordinal_digits(name)->Some_0.1) as u32)
    } else {
        None
    }
}

fn is_unicode_whitespace_exec(c: char) -> (b: bool)
    ensures
        b == is_unicode_whitespace(c),
{
    let u = c as u32;
    (0x09 <= u && u <= 0x0D) || u == 0x20 || u == 0x85 || u == 0xA0 || u == 0x1680 || (0x2000 <= u
        && u <= 0x200A) || u == 0x2028 || u == 0x2029 || u == 0x202F || u == 0x205F || u == 0x3000
}

/// The index that `last_index_of` finds holds `c`.
proof fn lemma_last_index_of(s: Seq<char>, c: char)
    ensures
        last_index_of(s, c) matches Some(i) ==> 0 <= i < s.len() && s[i] == c,
    decreases s.len(),
{
    if s.len() > 0 && s.last() != c {
        lemma_last_index_of(s.drop_last(), c);
    }
}

fn last_index_of_exec(s: &Vec<char>, c: char) -> (r: Option<usize>)
    ensures
        match r {
            Some(i) => last_index_of(s@, c) == Some(i as int),
            None => last_index_of(s@, c) is None,
        },
{
    let mut i: usize = s.len();
    assert(s@.take(i as int) =~= s@);
    while i > 0
        invariant
            i <= s.len(),
            last_index_of(s@, c) == last_index_of(s@.take(i as int), c),
        decreases i,
    {
        assert(s@.take(i as int).drop_last() =~= s@.take(i - 1));
        if s[i - 1] == c {
            return Some(i - 1);
        }
        i = i - 1;
    }
    None
}

/// Parses a run of ASCII digits as a `u32`; `None` when it does not fit.
fn parse_digits_u32(d: &Vec<char>) -> (r: Option<u32>)
    requires
        all_ascii_digits(d@),
    ensures
        match r {
            Some(v) => digits_value(d@) <= u32::MAX && v == digits_value(d@),
            None => digits_value(d@) > u32::MAX,
        },
{
    let mut acc: u32 = 0;
    let mut i: usize = 0;
    while i < d.len()
        invariant
            i <= d.len(),
            all_ascii_digits(d@),
            acc == digits_value(d@.take(i as int)),
        decreases d.len() - i,
    {
        assert(d@.take(i + 1).drop_last() =~= d@.take(i as int));
        let c = d[i];
        assert(is_ascii_digit(d@[i as int]));
        let dv: u32 = (c as u32) - ('0' as u32);
        if acc > (u32::MAX - dv) / 10 {
            proof {
                lemma_digits_value_grows(d@, i as int + 1);
            }
            return None;
        }
        acc = acc * 10 + dv;
        i = i + 1;
    }
    assert(d@.take(d.len() as int) =~= d@);
    Some(acc)
}

/// A longer prefix of digits never denotes a smaller number.
proof fn lemma_digits_value_grows(d: Seq<char>, k: int)
    requires
        0 <= k <= d.len(),
        all_ascii_digits(d),
    ensures
        digits_value(d.take(k)) <= digits_value(d),
    decreases d.len(),
{
    if k < d.len() {
        assert(d.drop_last().take(k) =~= d.take(k));
        assert forall|i: int| 0 <= i < d.drop_last().len() implies is_ascii_digit(
            #[trigger] d.drop_last()[i],
        ) by {
            assert(d.drop_last()[i] == d[i]);
        }
        lemma_digits_value_grows(d.drop_last(), k);
    } else {
        assert(d.take(k) =~= d);
    }
}

impl OrdinalName {
    /// Splits `name` into its stem and an optional ordinal: where the name ends
    /// in `(digits)` and the digits parse as a `u32`, the stem is what precedes
    /// the last `(`, without trailing whitespace.
    pub fn parse(name: &str) -> (r: OrdinalName)
        ensures
            r.stem@ == ordinal_stem(name@),
            r.ordinal == ordinal_of(name@),
    {
        let chars = chars_of(name);
        let last_paren = last_index_of_exec(&chars, '(');
        if let Some(p) = last_paren {
            if chars.len() > 0 && chars[chars.len() - 1] == ')' {
                proof {
                    lemma_last_index_of(chars@, '(');
                }
                let mut digits: Vec<char> = Vec::new();
                let mut all_digits = true;
                let mut i: usize = p + 1;
                let end: usize = chars.len() - 1;
                assert(chars@[p as int] == '(');
                while i < end
                    invariant
                        p + 1 <= i <= end,
                        end == chars.len() - 1,
                        digits@ == chars@.subrange(p + 1, i as int),
                        all_digits == all_ascii_digits(digits@),
                    decreases end - i,
                {
                    let c = chars[i];
                    let ghost before = digits@;
                    digits.push(c);
                    assert(all_ascii_digits(digits@) == (all_ascii_digits(before) && is_ascii_digit(c))) by {
                        if all_ascii_digits(before) && is_ascii_digit(c) {
                            assert forall|k: int| 0 <= k < digits@.len() implies is_ascii_digit(#[trigger] digits@[k]) by {
                                if k < before.len() {
                                    assert(digits@[k] == before[k]);
                                }
                            }
                        }
                        if all_ascii_digits(digits@) {
                            assert(is_ascii_digit(digits@[before.len() as int]));
                            assert forall|k: int| 0 <= k < before.len() implies is_ascii_digit(#[trigger] before[k]) by {
                                assert(digits@[k] == before[k]);
                            }
                        }
                    }
                    all_digits = all_digits && '0' <= c && c <= '9';
                    i = i + 1;
                    assert(digits@ =~= chars@.subrange(p + 1, i as int));
                }
                assert(ordinal_digits(name@) == Some((p as int, digits@)));
                if all_digits && digits.len() > 0 {
                    if let Some(num) = parse_digits_u32(&digits) {
                        let mut stem_chars: Vec<char> = Vec::new();
                        let mut j: usize = 0;
                        while j < p
                            invariant
                                j <= p,
                                p < chars.len(),
                                stem_chars@ == chars@.take(j as int),
                            decreases p - j,
                        {
                            stem_chars.push(chars[j]);
                            j = j + 1;
                            assert(stem_chars@ =~= chars@.take(j as int));
                        }
                        let ghost prefix = stem_chars@;
                        while stem_chars.len() > 0 && is_unicode_whitespace_exec(
                            stem_chars[stem_chars.len() - 1],
                        )
                            invariant
                                trim_end(stem_chars@) == trim_end(prefix),
                            decreases stem_chars.len(),
                        {
                            assert(stem_chars@.drop_last() =~= stem_chars@.subrange(
                                0,
                                stem_chars@.len() - 1,
                            ));
                            stem_chars.pop();
                        }
                        return OrdinalName { stem: string_from_chars(&stem_chars), ordinal: Some(num) };
                    }
                }
            }
        }
        OrdinalName { stem: string_from_chars(&chars), ordinal: None }
    }
}

/// The decimal digits of `n`.
pub open spec fn decimal(n: nat) -> Seq<char>
    decreases n,
{
    if n < 10 {
        seq![(n + ('0' as u32)) as char]
    } else {
        decimal(n / 10).push(((n % 10) + ('0' as u32)) as char)
    }
}

/// Appends the decimal digits of `n` to `s`.
pub fn push_decimal(s: &mut String, n: u64)
    ensures
        final(s)@ == old(s)@ + decimal(n as nat),
    decreases n,
{
    if n >= 10 {
        push_decimal(s, n / 10);
    }
    let d: u64 = n % 10;
    let code: u64 = d + ('0' as u64);
    let c: char = if d == 0 { '0' } else if d == 1 { '1' } else if d == 2 { '2' } else if d == 3 {
        '3'
    } else if d == 4 { '4' } else if d == 5 { '5' } else if d == 6 { '6' } else if d == 7 {
        '7'
    } else if d == 8 { '8' } else { '9' };
    assert(c == code as char);
    string_push(s, c);
}

/// The name that `get_ordinal_name` hands out for a stem seen before, with the
/// counter now at `n`: `"stem (n)"`.
pub open spec fn numbered_name(stem: Seq<char>, n: nat) -> Seq<char> {
    stem + seq![' ', '('] + decimal(n) + seq![')']
}

/// Keeps, per lower-cased stem, the highest ordinal seen so far.
pub struct OrdinalNameManager {
    ordinals: StringHashMap<u32>,
}

impl View for OrdinalNameManager {
    type V = Map<Seq<char>, u32>;

    closed spec fn view(&self) -> Map<Seq<char>, u32> {
        self.ordinals@
    }
}

/// The key under which a name's stem is counted.
pub open spec fn ordinal_key(name: Seq<char>) -> Seq<char> {
    str_lowercase(ordinal_stem(name))
}

/// The counters after `update_ordinal(name)`.
pub open spec fn updated_ordinals(m: Map<Seq<char>, u32>, name: Seq<char>) -> Map<Seq<char>, u32> {
    let key = ordinal_key(name);
    let old_value: u32 = if m.contains_key(key) { m[key] } else { 0 };
    match ordinal_of(name) {
        Some(o) => m.insert(key, if old_value >= o { old_value } else { o }),
        None => m.insert(key, old_value),
    }
}

impl OrdinalNameManager {
    /// A manager that has seen no name.
    pub fn new() -> (r: OrdinalNameManager)
        ensures
            r@ == Map::<Seq<char>, u32>::empty(),
    {
        OrdinalNameManager { ordinals: StringHashMap::new() }
    }

    /// Records `name`: its lower-cased stem is now known, with a counter at
    /// least as high as its ordinal.
    pub fn update_ordinal(&mut self, name: &str)
        ensures
            final(self)@ == updated_ordinals(old(self)@, name@),
    {
        let parsed = OrdinalName::parse(name);
        let key = to_lowercase(parsed.stem.as_str());
        let current: u32 = match self.ordinals.get(key.as_str()) {
            Some(v) => *v,
            None => 0,
        };
        match parsed.ordinal {
            Some(ordinal) => {
                let v = if current >= ordinal { current } else { ordinal };
                self.ordinals.insert(key, v);
            },
            None => {
                self.ordinals.insert(key, current);
            },
        }
    }

    /// A name for a duplicate of `original`: its stem where the stem is new,
    /// otherwise `"stem (n)"` with the stem's counter raised by one to `n`.
    pub fn get_ordinal_name(&mut self, original: &str) -> (r: String)
        requires
            old(self)@.contains_key(ordinal_key(original@)) ==> old(self)@[ordinal_key(original@)]
                < u32::MAX,
        ensures
            ({
                let key = ordinal_key(original@);
                if old(self)@.contains_key(key) {
                    &&& final(self)@ == old(self)@.insert(key, (old(self)@[key] + 1) as u32)
                    &&& r@ == numbered_name(ordinal_stem(original@), (old(self)@[key] + 1) as nat)
                } else {
                    &&& final(self)@ == old(self)@
                    &&& r@ == ordinal_stem(original@)
                }
            }),
    {
        let parsed = OrdinalName::parse(original);
        let key = to_lowercase(parsed.stem.as_str());
        match self.ordinals.get(key.as_str()) {
            None => parsed.stem,
            Some(v) => {
                let next: u32 = *v + 1;
                self.ordinals.insert(key, next);
                let mut name = parsed.stem;
                string_push(&mut name, ' ');
                string_push(&mut name, '(');
                push_decimal(&mut name, next as u64);
                string_push(&mut name, ')');
                assert(name@ =~= numbered_name(ordinal_stem(original@), next as nat));
                name
            },
        }
    }

    /// Like `get_ordinal_name`, but `None`, with nothing changed, where the
    /// stem's counter has reached `u32::MAX` and cannot be raised.
    pub fn checked_ordinal_name(&mut self, original: &str) -> (r: Option<String>)
        ensures
            ({
                let key = ordinal_key(original@);
                if old(self)@.contains_key(key) && old(self)@[key] == u32::MAX {
                    r is None && final(self)@ == old(self)@
                } else if old(self)@.contains_key(key) {
                    &&& final(self)@ == old(self)@.insert(key, (old(self)@[key] + 1) as u32)
                    &&& r matches Some(n) && n@ == numbered_name(
                        ordinal_stem(original@),
                        (old(self)@[key] + 1) as nat,
                    )
                } else {
                    &&& final(self)@ == old(self)@
                    &&& r matches Some(n) && n@ == ordinal_stem(original@)
                }
            }),
    {
        let parsed = OrdinalName::parse(original);
        let key = to_lowercase(parsed.stem.as_str());
        let saturated = match self.ordinals.get(key.as_str()) {
            Some(v) => *v == u32::MAX,
            None => false,
        };
        if saturated {
            None
        } else {
            Some(self.get_ordinal_name(original))
        }
    }
}

proof fn lemma_trim_trailing_prefix(s: Seq<char>)
    ensures
        trim_trailing_spaces_dots(s).len() <= s.len(),
        trim_trailing_spaces_dots(s) =~= s.take(trim_trailing_spaces_dots(s).len() as int),
        trim_trailing_spaces_dots(s).len() == 0 || (trim_trailing_spaces_dots(s).last() != ' '
            && trim_trailing_spaces_dots(s).last() != '.'),
    decreases s.len(),
{
    if s.len() > 0 && (s.last() == ' ' || s.last() == '.') {
        lemma_trim_trailing_prefix(s.drop_last());
        let r = trim_trailing_spaces_dots(s.drop_last());
        assert(s.drop_last().take(r.len() as int) =~= s.take(r.len() as int));
    }
}

proof fn lemma_safe_chars_stay(s: Seq<char>)
    requires
        forall|i: int| 0 <= i < s.len() ==> !is_unsafe_char(#[trigger] s[i]),
        s.len() == 0 || (s.last() != ' ' && s.last() != '.'),
    ensures
        sanitized(s) =~= s,
        trim_trailing_spaces_dots(sanitized(s)) == s,
{
    assert(sanitized(s) =~= s);
}

/// A safe name is its own safe name: mapping a name twice changes nothing
/// more than mapping it once.
pub proof fn law_safe_name_is_stable(desired: Seq<char>)
    ensures
        safe_name(desired) matches Some(t) ==> safe_name(t) == Some(t),
{
    let cut = if desired.len() <= MAX_SAFE_NAME_CHARS {
        desired
    } else {
        desired.take(MAX_SAFE_NAME_CHARS as int)
    };
    let clean = sanitized(cut);
    let trimmed = trim_trailing_spaces_dots(clean);
    lemma_trim_trailing_prefix(clean);
    assert forall|i: int| 0 <= i < trimmed.len() implies !is_unsafe_char(#[trigger] trimmed[i]) by {
        assert(trimmed[i] == clean[i]);
        assert('_' as u32 == 95);
    }
    if safe_name(desired) is Some {
        let t = safe_name(desired)->Some_0;
        if is_dos_reserved_name(trimmed) {
            assert(t == trimmed + reserved_suffix());
            assert(trimmed.len() == 3 || trimmed.len() == 4) by {
                assert(ascii_uppercased(trimmed).len() == trimmed.len());
            }
            assert forall|i: int| 0 <= i < t.len() implies !is_unsafe_char(#[trigger] t[i]) by {
                if i < trimmed.len() {
                    assert(t[i] == trimmed[i]);
                } else {
                    assert(t[i] == reserved_suffix()[i - trimmed.len()]);
                    assert('_' as u32 == 95 && 'r' as u32 == 114 && 'e' as u32 == 101 && 's' as u32
                        == 115 && 'v' as u32 == 118 && 'd' as u32 == 100);
                }
            }
            assert(t.last() == 'd');
            lemma_safe_chars_stay(t);
            assert(!is_dos_reserved_name(t)) by {
                assert(ascii_uppercased(t).len() == t.len());
            }
        } else {
            assert(t == trimmed);
            lemma_safe_chars_stay(t);
        }
    }
}

pub(crate) proof fn lemma_decimal(n: nat)
    ensures
        decimal(n).len() >= 1,
        all_ascii_digits(decimal(n)),
        digits_value(decimal(n)) == n,
    decreases n,
{
    if n >= 10 {
        lemma_decimal(n / 10);
        let d = decimal(n / 10);
        let c = ((n % 10) + ('0' as u32)) as char;
        assert(decimal(n) == d.push(c));
        assert(decimal(n).drop_last() =~= d);
        assert(digit_value(c) == n % 10);
        assert(digits_value(decimal(n)) == digits_value(d) * 10 + digit_value(c));
        assert(n == (n / 10) * 10 + n % 10);
        assert forall|i: int| 0 <= i < decimal(n).len() implies is_ascii_digit(#[trigger] decimal(n)[i]) by {
            if i < d.len() {
                assert(decimal(n)[i] == d[i]);
            }
        }
    } else {
        assert(digit_value(decimal(n)[0]) == n);
        assert(decimal(n).drop_last() =~= Seq::<char>::empty());
        assert(digits_value(Seq::<char>::empty()) == 0);
        assert(digits_value(decimal(n)) == digits_value(decimal(n).drop_last()) * 10 + digit_value(
            decimal(n).last(),
        ));
    }
}

proof fn lemma_last_index_past(s: Seq<char>, t: Seq<char>, c: char)
    requires
        s.len() > 0,
        s.last() == c,
        forall|i: int| 0 <= i < t.len() ==> t[i] != c,
    ensures
        last_index_of(s + t, c) == Some(s.len() - 1),
    decreases t.len(),
{
    if t.len() == 0 {
        assert(s + t =~= s);
    } else {
        assert((s + t).drop_last() =~= s + t.drop_last());
        lemma_last_index_past(s, t.drop_last(), c);
    }
}

/// The name handed out for a duplicate reads back as its stem and ordinal:
/// `"stem (n)"` parses to `stem` and `n` (a stem that ends in whitespace
/// comes back trimmed, so it is left out).
pub proof fn law_numbered_name_reads_back(stem: Seq<char>, n: u32)
    requires
        stem.len() == 0 || !is_unicode_whitespace(stem.last()),
    ensures
        ordinal_of(numbered_name(stem, n as nat)) == Some(n),
        ordinal_stem(numbered_name(stem, n as nat)) == stem,
{
    let d = decimal(n as nat);
    lemma_decimal(n as nat);
    let name = numbered_name(stem, n as nat);
    let head = stem + seq![' ', '('];
    assert(name =~= head + (d + seq![')']));
    assert forall|i: int| 0 <= i < (d + seq![')']).len() implies (d + seq![')'])[i] != '(' by {
        if i < d.len() {
            assert(is_ascii_digit(d[i]));
        }
    }
    lemma_last_index_past(head, d + seq![')'], '(');
    let p: int = stem.len() as int + 1;
    assert(ordinal_digits(name) == Some((p, name.subrange(p + 1, name.len() - 1))));
    assert(name.subrange(p + 1, name.len() - 1) =~= d);
    assert(has_ordinal(name));
    assert(name.take(p) =~= stem.push(' '));
    assert(stem.push(' ').drop_last() =~= stem);
    assert(is_unicode_whitespace(' '));
    assert(trim_end(stem.push(' ')) == trim_end(stem));
}

/// Recording a name never lowers a counter, and leaves its stem's counter at
/// least at the name's ordinal.
pub proof fn law_update_ordinal_never_lowers(m: Map<Seq<char>, u32>, name: Seq<char>)
    ensures
        forall|k: Seq<char>| #[trigger] m.contains_key(k) ==> updated_ordinals(m, name).contains_key(k)
            && updated_ordinals(m, name)[k] >= m[k],
        updated_ordinals(m, name).contains_key(ordinal_key(name)),
        ordinal_of(name) matches Some(o) ==> updated_ordinals(m, name)[ordinal_key(name)] >= o,
{
}

/// The name that `get_ordinal_name` hands out for a known stem is recognised
/// as that stem with its new ordinal: recording it again changes nothing, so
/// the next duplicate gets a higher ordinal.
pub proof fn law_handed_out_name_is_known(m: Map<Seq<char>, u32>, original: Seq<char>)
    requires
        m.contains_key(ordinal_key(original)),
        m[ordinal_key(original)] < u32::MAX,
        ordinal_stem(original).len() == 0 || !is_unicode_whitespace(ordinal_stem(original).last()),
    ensures
        ({
            let key = ordinal_key(original);
            let next = (m[key] + 1) as u32;
            let after = m.insert(key, next);
            let handed = numbered_name(ordinal_stem(original), next as nat);
            &&& ordinal_key(handed) == key
            &&& updated_ordinals(after, handed) == after
        }),
{
    let key = ordinal_key(original);
    let next = (m[key] + 1) as u32;
    let after = m.insert(key, next);
    let handed = numbered_name(ordinal_stem(original), next as nat);
    law_numbered_name_reads_back(ordinal_stem(original), next);
    assert(updated_ordinals(after, handed) =~= after);
}

proof fn lemma_trim_empty(s: Seq<char>)
    ensures
        trim_trailing_spaces_dots(s).len() == 0 <==> forall|i: int| 0 <= i < s.len() ==> (#[trigger] s[i]) == ' '
            || s[i] == '.',
    decreases s.len(),
{
    if s.len() > 0 {
        lemma_trim_empty(s.drop_last());
        if forall|i: int| 0 <= i < s.len() ==> (#[trigger] s[i]) == ' ' || s[i] == '.' {
            assert forall|i: int| 0 <= i < s.drop_last().len() implies (#[trigger] s.drop_last()[i]) == ' '
                || s.drop_last()[i] == '.' by {
                assert(s.drop_last()[i] == s[i]);
            }
            assert(s[s.len() - 1] == ' ' || s[s.len() - 1] == '.');
        }
        if trim_trailing_spaces_dots(s).len() == 0 {
            assert(s.last() == ' ' || s.last() == '.');
            assert forall|i: int| 0 <= i < s.len() implies (#[trigger] s[i]) == ' ' || s[i] == '.' by {
                if i < s.len() - 1 {
                    assert(s.drop_last()[i] == s[i]);
                }
            }
        }
    }
}

/// What a safe name is: `None` exactly when the first 128 characters are all
/// spaces and periods (the empty name included); otherwise a non-empty name
/// of at most 128 characters with no control or reserved character, not
/// ending in a space or a period, and no DOS device name.
pub proof fn law_safe_name_properties(desired: Seq<char>)
    ensures
        safe_name(desired) is None <==> forall|i: int| 0 <= i < desired.len() && i < MAX_SAFE_NAME_CHARS ==> (
        #[trigger] desired[i]) == ' ' || desired[i] == '.',
        safe_name(desired) matches Some(r) ==> {
            &&& 0 < r.len() <= MAX_SAFE_NAME_CHARS
            &&& forall|i: int| 0 <= i < r.len() ==> !is_unsafe_char(#[trigger] r[i])
            &&& r.last() != ' ' && r.last() != '.'
            &&& !is_dos_reserved_name(r)
        },
{
    let cut = if desired.len() <= MAX_SAFE_NAME_CHARS {
        desired
    } else {
        desired.take(MAX_SAFE_NAME_CHARS as int)
    };
    let clean = sanitized(cut);
    let trimmed = trim_trailing_spaces_dots(clean);
    lemma_trim_trailing_prefix(clean);
    lemma_trim_empty(clean);
    assert forall|i: int| 0 <= i < trimmed.len() implies !is_unsafe_char(#[trigger] trimmed[i]) by {
        assert(trimmed[i] == clean[i]);
        assert('_' as u32 == 95);
    }
    assert forall|i: int| 0 <= i < cut.len() implies ((#[trigger] clean[i]) == ' ' || clean[i] == '.') == (cut[i]
        == ' ' || cut[i] == '.') by {
        assert(' ' as u32 == 32 && '.' as u32 == 46 && '_' as u32 == 95);
    }
    assert forall|i: int| 0 <= i < desired.len() && i < MAX_SAFE_NAME_CHARS implies #[trigger] desired[i] == cut[i] by {
    }
    if trimmed.len() == 0 {
        assert(!is_dos_reserved_name(trimmed)) by {
            assert(ascii_uppercased(trimmed).len() == 0);
        }
        assert(safe_name(desired) is None);
        assert forall|i: int| 0 <= i < desired.len() && i < MAX_SAFE_NAME_CHARS implies (#[trigger] desired[i])
            == ' ' || desired[i] == '.' by {
            assert(desired[i] == cut[i]);
            assert(clean[i] == ' ' || clean[i] == '.');
        }
    } else {
        assert(safe_name(desired) is Some);
        if forall|i: int| 0 <= i < desired.len() && i < MAX_SAFE_NAME_CHARS ==> (#[trigger] desired[i]) == ' '
            || desired[i] == '.' {
            assert forall|i: int| 0 <= i < clean.len() implies (#[trigger] clean[i]) == ' ' || clean[i] == '.' by {
                assert(desired[i] == cut[i]);
            }
        }
    }
    if safe_name(desired) is Some {
        let t = safe_name(desired)->Some_0;
        law_safe_name_is_stable(desired);
        if is_dos_reserved_name(trimmed) {
            assert(trimmed.len() == 3 || trimmed.len() == 4) by {
                assert(ascii_uppercased(trimmed).len() == trimmed.len());
            }
            assert(t.last() == 'd');
            assert(!is_dos_reserved_name(t)) by {
                assert(ascii_uppercased(t).len() == t.len());
            }
            assert forall|i: int| 0 <= i < t.len() implies !is_unsafe_char(#[trigger] t[i]) by {
                if i < trimmed.len() {
                    assert(t[i] == trimmed[i]);
                } else {
                    assert(t[i] == reserved_suffix()[i - trimmed.len()]);
                    assert('_' as u32 == 95 && 'r' as u32 == 114 && 'e' as u32 == 101 && 's' as u32
                        == 115 && 'v' as u32 == 118 && 'd' as u32 == 100);
                }
            }
        }
    }
}

/// `s` spells `name` ignoring ASCII case, where `name` is written in capitals
/// and digits.
pub open spec fn spells_ignoring_case(s: Seq<char>, name: Seq<char>) -> bool {
    &&& s.len() == name.len()
    &&& forall|i: int|
        0 <= i < name.len() ==> (#[trigger] s[i] == name[i] || ('A' <= name[i] && name[i] <= 'Z'
            && s[i] as u32 == name[i] as u32 + 32))
}

/// Each DOS device name, CON, PRN, AUX, NUL, COM1 to COM9 and LPT1 to LPT9,
/// in any ASCII case, becomes itself followed by `_reserved`: "aux" becomes
/// "aux_reserved".
pub proof fn law_device_names_are_suffixed(s: Seq<char>, name: Seq<char>)
    requires
        spells_ignoring_case(s, name),
        ({
            ||| name == seq!['C', 'O', 'N']
            ||| name == seq!['P', 'R', 'N']
            ||| name == seq!['A', 'U', 'X']
            ||| name == seq!['N', 'U', 'L']
            ||| (name.len() == 4 && (name.take(3) == seq!['C', 'O', 'M'] || name.take(3) == seq![
                'L',
                'P',
                'T',
            ]) && '1' <= name[3] && name[3] <= '9')
        }),
    ensures
        safe_name(s) == Some(s + seq!['_', 'r', 'e', 's', 'e', 'r', 'v', 'e', 'd']),
{
    assert(name.len() == 3 || name.len() == 4);
    assert forall|i: int| 0 <= i < name.len() implies ('A' <= #[trigger] name[i] && name[i] <= 'Z') || (
    '1' <= name[i] && name[i] <= '9') by {
        if name.len() == 4 && i < 3 {
            assert(name[i] == name.take(3)[i]);
        }
    }
    assert forall|i: int| 0 <= i < s.len() implies !is_unsafe_char(#[trigger] s[i]) && s[i] != ' ' && s[i]
        != '.' && ascii_upper(s[i]) == name[i] by {
        assert(s[i] == name[i] || ('A' <= name[i] && name[i] <= 'Z' && s[i] as u32 == name[i] as u32
            + 32));
        assert('A' as u32 == 65 && 'Z' as u32 == 90 && 'a' as u32 == 97 && 'z' as u32 == 122);
        assert('1' as u32 == 49 && '9' as u32 == 57);
        assert('/' as u32 == 47 && '<' as u32 == 60 && '>' as u32 == 62 && ':' as u32 == 58 && '"'
            as u32 == 34 && '\\' as u32 == 92 && '|' as u32 == 124 && '?' as u32 == 63 && '*' as u32
            == 42 && ' ' as u32 == 32 && '.' as u32 == 46);
    }
    let clean = sanitized(s);
    assert(clean =~= s);
    assert(s.len() > 0 && s.last() != ' ' && s.last() != '.');
    assert(trim_trailing_spaces_dots(s) == s);
    assert(ascii_uppercased(s) =~= name);
    assert(is_dos_reserved_name(s)) by {
        if name.len() == 4 {
            assert(name[0] == name.take(3)[0] && name[1] == name.take(3)[1] && name[2] == name.take(
                3,
            )[2]);
        }
    }
    assert(s.len() <= MAX_SAFE_NAME_CHARS);
}

} // verus!
