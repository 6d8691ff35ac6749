//! Reading the sampler's text and deciding whether the platform has a sampler.

use vstd::prelude::*;
use vstd::std_specs::iter::IteratorSpec;
use vstd::string::{axiom_spec_iter, next_postcondition};

verus! {

/// The text that opens every sampler reply.
pub open spec fn temp_prefix() -> Seq<char> {
    seq!['t', 'e', 'm', 'p', '=']
}

/// The text that closes every sampler reply.
pub open spec fn temp_suffix() -> Seq<char> {
    seq!['\'', 'C']
}

/// `s` without the one line feed that may end it.
pub open spec fn without_line_end(s: Seq<char>) -> Seq<char> {
    if s.len() > 0 && s.last() == '\n' {
        s.drop_last()
    } else {
        s
    }
}

/// The number text of a sampler reply `temp=<number>'C`, optionally followed
/// by a line feed: what stands between `temp=` and `'C`; `None` when the reply
/// is not framed that way. Whether that text is a valid number is for the
/// float parse that reads it.
pub open spec fn number_text(s: Seq<char>) -> Option<Seq<char>> {
    let t = without_line_end(s);
    if t.len() >= temp_prefix().len() + temp_suffix().len()
        && t.subrange(0, 5) == temp_prefix()
        && t.subrange(t.len() - 2, t.len() as int) == temp_suffix() {
        Some(t.subrange(5, t.len() - 2))
    } else {
        None
    }
}

/// The characters of an optional text.
pub open spec fn str_view(r: Option<&str>) -> Option<Seq<char>> {
    match r {
        Some(x) => Some(x@),
        None => None,
    }
}

/// The characters of `s`, in order.
fn chars_of(s: &str) -> (r: Vec<char>)
    ensures
        r@ == s@,
{
    broadcast use axiom_spec_iter, next_postcondition;

    let mut out: Vec<char> = Vec::new();
    let mut it = s.chars();
    loop
        invariant
            out@ + it.remaining() == s@,
            it.decrease() is Some,
        ensures
            out@ == s@,
        decreases it.decrease()->0,
    {
        let ghost before = it.remaining();
        match it.next() {
            Some(c) => {
                proof {
                    assert(out@.push(c) + it.remaining() =~= out@ + before);
                }
                out.push(c);
            },
            None => {
                assert(out@ =~= s@);
                break;
            },
        }
    }
    out
}

/// Whether `n` occurs in `h` as a contiguous run.
pub open spec fn occurs_in(h: Seq<char>, n: Seq<char>) -> bool {
    exists|i: int| 0 <= i && i + n.len() <= h.len() && #[trigger] h.subrange(i, i + n.len()) == n
}

/// The platform check: the device-tree model names a Raspberry Pi, or the OS
/// release names Raspberry Pi OS. A file that could not be read names nothing.
pub open spec fn runs_on_raspberry_pi(model: Option<Seq<char>>, os_release: Option<Seq<char>>) -> bool {
    ||| (model is Some && occurs_in(model->0, "Raspberry Pi"@))
    ||| (os_release is Some && (occurs_in(os_release->0, "Raspian"@) || occurs_in(
        os_release->0,
        "Raspberry Pi OS"@,
    )))
}

/// Whether `n` stands in `h` from position `at` on.
fn matches_at(h: &Vec<char>, n: &Vec<char>, at: usize) -> (r: bool)
    requires
        at + n@.len() <= h@.len(),
    ensures
        r == (h@.subrange(at as int, at + n@.len()) == n@),
{
    let hl: usize = h.len();
    let mut k: usize = 0;
    while k < n.len()
        invariant
            at + n@.len() <= h@.len(),
            hl == h@.len(),
            k <= n@.len(),
            forall|j: int| 0 <= j < k ==> h@[at + j] == n@[j],
        decreases n@.len() - k,
    {
        if h[at + k] != n[k] {
            assert(h@.subrange(at as int, at + n@.len())[k as int] != n@[k as int]);
            return false;
        }
        k = k + 1;
    }
    assert(h@.subrange(at as int, at + n@.len()) =~= n@);
    true
}

/// Whether `needle` occurs anywhere in `hay`.
fn contains_run(hay: &Vec<char>, needle: &Vec<char>) -> (r: bool)
    ensures
        r == occurs_in(hay@, needle@),
{
    if needle.len() > hay.len() {
        return false;
    }
    let last: usize = hay.len() - needle.len();
    let mut i: usize = 0;
    while i <= last
        invariant
            last + needle@.len() == hay@.len(),
            i <= last + 1,
            forall|j: int| 0 <= j < i ==> #[trigger] hay@.subrange(j, j + needle@.len()) != needle@,
        decreases last + 1 - i,
    {
        if matches_at(hay, needle, i) {
            return true;
        }
        if i == last {
            return false;
        }
        i = i + 1;
    }
    false
}

/// Whether the text of a file, if it could be read, holds `needle`.
fn text_names(text: Option<&str>, needle: &str) -> (r: bool)
    ensures
        r == (text is Some && occurs_in(text->0@, needle@)),
{
    match text {
        Some(t) => {
            let hay = chars_of(t);
            let n = chars_of(needle);
            contains_run(&hay, &n)
        },
        None => false,
    }
}

/// Decides from the device-tree model text and the OS release text (each
/// `None` when it could not be read) whether the platform's temperature
/// sampler should be asked at all.
pub fn is_raspberry_pi_os(model: Option<&str>, os_release: Option<&str>) -> (r: bool)
    ensures
        r == runs_on_raspberry_pi(str_view(model), str_view(os_release)),
{
    text_names(model, "Raspberry Pi") || text_names(os_release, "Raspian") || text_names(
        os_release,
        "Raspberry Pi OS",
    )
}

/// Extracts the number text from a sampler reply of the form `temp=<number>'C`,
/// which may end with a line feed. Returns `None` when the reply is framed
/// otherwise; the text returned still has to parse as a number.
pub fn parse_temp_string(temp_string: &str) -> (r: Option<&str>)
    ensures
        str_view(r) == number_text(temp_string@),
{
    let cs = chars_of(temp_string);
    let ghost s = temp_string@;
    let mut len: usize = cs.len();
    if len > 0 && cs[len - 1] == '\n' {
        len = len - 1;
    }
    let ghost t = cs@.subrange(0, len as int);
    assert(t =~= without_line_end(s));
    if len < 7 {
        return None;
    }
    if !(cs[0] == 't' && cs[1] == 'e' && cs[2] == 'm' && cs[3] == 'p' && cs[4] == '=') {
        assert(t.subrange(0, 5) != temp_prefix()) by {
            let w = t.subrange(0, 5);
            assert(w[0] != 't' || w[1] != 'e' || w[2] != 'm' || w[3] != 'p' || w[4] != '=');
        }
        return None;
    }
    if !(cs[len - 2] == '\'' && cs[len - 1] == 'C') {
        assert(t.subrange(t.len() - 2, t.len() as int) != temp_suffix()) by {
            let w = t.subrange(t.len() - 2, t.len() as int);
            assert(w[0] != '\'' || w[1] != 'C');
        }
        return None;
    }
    assert(t.subrange(0, 5) =~= temp_prefix());
    assert(t.subrange(t.len() - 2, t.len() as int) =~= temp_suffix());
    Some(temp_string.substring_char(5, len - 2))
}

} // verus!
