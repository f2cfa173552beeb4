//! Naming rules of the api and interface declaration macros: the snake-case
//! names of generated items and the version triple they are declared with.
use vstd::prelude::*;
use crate::text::{chars_of, string_push};

verus! {

/// The version triple given to a declaration, `(major, minor, patch)`.
pub struct Version {
    pub major: u64,
    pub minor: u64,
    pub patch: u64,
}

impl Version {
    /// The triple from the elements of a declaration's version tuple; `None`
    /// unless there are exactly three.
    pub fn from_elements(elems: &Vec<u64>) -> (r: Option<Version>)
        ensures
            match r {
                Some(v) => elems@.len() == 3 && v.major == elems@[0] && v.minor == elems@[1] && v.patch
                    == elems@[2],
                None => elems@.len() != 3,
            },
    {
        if elems.len() != 3 {
            return None;
        }
        Some(Version { major: elems[0], minor: elems[1], patch: elems[2] })
    }
}

/// Whether `char::is_uppercase` holds (the Unicode `Uppercase` property).
pub uninterp spec fn char_is_upper(c: char) -> bool;

/// The first character of `char::to_lowercase`.
pub uninterp spec fn char_lower_first(c: char) -> char;

pub open spec fn is_ascii_upper(c: char) -> bool {
    'A' <= c && c <= 'Z'
}

/// `A` through `Z` lower-cased; every other character as it is.
pub open spec fn ascii_lower(c: char) -> char {
    if is_ascii_upper(c) { ((c as u32) + 32) as char } else { c }
}

/// `char::is_uppercase`: the named property; on ASCII characters it holds
/// exactly of `A` through `Z`, as std documents.
#[verifier::external_body]
fn is_uppercase(c: char) -> (b: bool)
    ensures
        b == char_is_upper(c),
        (c as u32) < 128 ==> (b <==> is_ascii_upper(c)),
{
    c.is_uppercase()
}

/// The first character that `char::to_lowercase` yields; the iterator always
/// yields at least one. On ASCII characters it is the ASCII lower case, as
/// std documents.
#[verifier::external_body]
fn lowercase_first(c: char) -> (r: char)
    ensures
        r == char_lower_first(c),
        (c as u32) < 128 ==> r == ascii_lower(c),
{
    c.to_lowercase().next().unwrap()
}

/// The snake-case form of the first `n` characters of `s`: each character
/// lower-cased, an `_` before every upper-case character but the first.
pub open spec fn snake(s: Seq<char>, n: int) -> Seq<char>
    decreases n,
{
    if n <= 0 {
        Seq::empty()
    } else {
        let prev = snake(s, n - 1);
        let c = s[n - 1];
        let sep = if n - 1 > 0 && char_is_upper(c) { prev.push('_') } else { prev };
        sep.push(char_lower_first(c))
    }
}

/// The snake-case form of the first `n` characters of an ASCII name: an `_`
/// before every upper-case letter but the first character, every letter
/// lower-cased.
pub open spec fn ascii_snake(s: Seq<char>, n: int) -> Seq<char>
    decreases n,
{
    if n <= 0 {
        Seq::empty()
    } else {
        let prev = ascii_snake(s, n - 1);
        let c = s[n - 1];
        let sep = if n - 1 > 0 && is_ascii_upper(c) { prev.push('_') } else { prev };
        sep.push(ascii_lower(c))
    }
}

/// The characters of `s` are ASCII.
pub open spec fn all_ascii(s: Seq<char>) -> bool {
    forall|i: int| 0 <= i < s.len() ==> (#[trigger] s[i] as u32) < 128
}

/// `MyStruct` becomes `my_struct`; on ASCII names this is the ASCII rule
/// (`HTTPApi` becomes `h_t_t_p_api`).
pub fn snake_case(s: &str) -> (r: String)
    ensures
        r@ == snake(s@, s@.len() as int),
        all_ascii(s@) ==> r@ == ascii_snake(s@, s@.len() as int),
{
    let chars = chars_of(s);
    let mut result = String::new();
    let mut i: usize = 0;
    while i < chars.len()
        invariant
            i <= chars@.len(),
            chars@ == s@,
            result@ == snake(s@, i as int),
            all_ascii(s@) ==> result@ == ascii_snake(s@, i as int),
        decreases chars.len() - i,
    {
        let ch = chars[i];
        if i > 0 && is_uppercase(ch) {
            string_push(&mut result, '_');
        }
        string_push(&mut result, lowercase_first(ch));
        i = i + 1;
    }
    result
}

/// The name of the trait-object alias of a trait: `Dyn` and the trait's name.
pub fn dyn_ident(ident: &str) -> (r: String)
    ensures
        r@ == seq!['D', 'y', 'n'] + ident@,
{
    let mut r = String::new();
    string_push(&mut r, 'D');
    string_push(&mut r, 'y');
    string_push(&mut r, 'n');
    r.append(ident);
    r
}

/// The name of the function that registers an implementation of an
/// interface: `register_` and the snake-case name of the interface.
pub fn register_fn_name(interface: &str) -> (r: String)
    ensures
        r@ == seq!['r', 'e', 'g', 'i', 's', 't', 'e', 'r', '_'] + snake(interface@, interface@.len() as int),
{
    let snake_name = snake_case(interface);
    let mut r = String::new();
    r.append("register_");
    proof {
        reveal_strlit("register_");
    }
    r.append(snake_name.as_str());
    assert(r@ =~= seq!['r', 'e', 'g', 'i', 's', 't', 'e', 'r', '_'] + snake(interface@, interface@.len() as int));
    r
}

/// The name of the module that holds a trait's name and version constants:
/// the snake-case form of the trait's name followed by `Constants`.
pub fn constants_mod_name(trait_name: &str) -> (r: String)
    ensures
        ({
            let full = trait_name@ + seq!['C', 'o', 'n', 's', 't', 'a', 'n', 't', 's'];
            r@ == snake(full, full.len() as int)
        }),
{
    let mut full = String::new();
    full.append(trait_name);
    full.append("Constants");
    proof {
        reveal_strlit("Constants");
    }
    assert(full@ =~= trait_name@ + seq!['C', 'o', 'n', 's', 't', 'a', 'n', 't', 's']);
    snake_case(full.as_str())
}

} // verus!
