//! Command-line option lookup in the classic id-engine style: the stored
//! argument list is searched for a flag, and the word after a flag can be
//! read as a number (`-alpha 50`), while bare flags (`-windowed`) are
//! simple membership tests.

use vstd::prelude::*;

use crate::bytes::str_eq;

verus! {

/// Whether `ch` is a decimal digit.
pub open spec fn spec_digit(ch: char) -> bool {
    0x30 <= ch as int <= 0x39
}

pub open spec fn spec_all_digits(s: Seq<char>) -> bool {
    forall|i: int| 0 <= i < s.len() ==> spec_digit(#[trigger] s[i])
}

/// The value of a digit string read in base ten.
pub open spec fn spec_digits_val(s: Seq<char>) -> int
    decreases s.len(),
{
    if s.len() == 0 {
        0
    } else {
        spec_digits_val(s.drop_last()) * 10 + (s.last() as int - 0x30)
    }
}

pub proof fn lemma_digits_val_nonneg(s: Seq<char>)
    requires
        spec_all_digits(s),
    ensures
        spec_digits_val(s) >= 0,
    decreases s.len(),
{
    if s.len() > 0 {
        assert(spec_all_digits(s.drop_last()));
        lemma_digits_val_nonneg(s.drop_last());
    }
}

/// What parsing a string as an unsigned 32-bit number yields: after an
/// optional leading plus sign, a non-empty run of digits whose value fits;
/// anything else fails.
pub open spec fn spec_parse_u32(s: Seq<char>) -> Option<u32> {
    let t = if s.len() > 0 && s[0] == '+' {
        s.skip(1)
    } else {
        s
    };
    if t.len() > 0 && spec_all_digits(t) && spec_digits_val(t) <= u32::MAX {
        Some(spec_digits_val(t) as u32)
    } else {
        None
    }
}

/// Parses a decimal unsigned 32-bit number, accepting an optional leading
/// plus sign and rejecting empty input, non-digits and overflow.
pub fn parse_u32(s: &str) -> (r: Option<u32>)
    ensures
        r == spec_parse_u32(s@),
{
    let n = s.unicode_len();
    let mut start: usize = 0;
    if n > 0 && s.get_char(0) == '+' {
        start = 1;
    }
    let ghost t = if s@.len() > 0 && s@[0] == '+' {
        s@.skip(1)
    } else {
        s@
    };
    if start == n {
        return None;
    }
    let mut acc: u64 = 0;
    let mut over = false;
    let mut i = start;
    while i < n
        invariant
            start <= i <= n,
            start <= 1,
            n == s@.len(),
            t == if s@.len() > 0 && s@[0] == '+' {
                s@.skip(1)
            } else {
                s@
            },
            t.len() == n - start,
            forall|k: int| start <= k < i ==> t[k - start] == s@[k],
            spec_all_digits(t.take(i - start)),
            !over ==> acc == spec_digits_val(t.take(i - start)) && acc <= u32::MAX,
            over ==> spec_digits_val(t.take(i - start)) > u32::MAX,
        decreases n - i,
    {
        let ch = s.get_char(i);
        let code = ch as u32;
        if code < 0x30 || code > 0x39 {
            proof {
                assert(t[i - start] == s@[i as int]);
                assert(!spec_digit(t[i - start]));
                assert(!spec_all_digits(t));
            }
            return None;
        }
        let d = (code - 0x30) as u64;
        let ghost j = i - start;
        proof {
            assert(t.take(j + 1).drop_last() =~= t.take(j));
            assert(t.take(j + 1).last() == t[j]);
            assert(t[j] == s@[i as int]);
            assert(spec_all_digits(t.take(j + 1)));
            if over {
                lemma_digits_val_nonneg(t.take(j));
            }
        }
        if !over {
            let next = acc * 10 + d;
            if next > 0xffff_ffff {
                over = true;
            } else {
                acc = next;
            }
        }
        i += 1;
    }
    proof {
        assert(t.take(n - start) =~= t);
    }
    if over {
        None
    } else {
        Some(acc as u32)
    }
}

/// Whether some stored argument reads exactly `needle`.
pub open spec fn spec_has_arg(args: Seq<String>, needle: Seq<char>) -> bool {
    exists|i: int| 0 <= i < args.len() && (#[trigger] args[i])@ == needle
}

/// The index of the first stored argument reading `needle`.
pub open spec fn spec_arg_index(args: Seq<String>, needle: Seq<char>) -> int
    decreases args.len(),
{
    if args.len() == 0 {
        0
    } else if args[0]@ == needle {
        0
    } else {
        1 + spec_arg_index(args.skip(1), needle)
    }
}

pub proof fn lemma_arg_index(args: Seq<String>, needle: Seq<char>)
    requires
        spec_has_arg(args, needle),
    ensures
        0 <= spec_arg_index(args, needle) < args.len(),
        args[spec_arg_index(args, needle)]@ == needle,
        forall|k: int| 0 <= k < spec_arg_index(args, needle) ==> (#[trigger] args[k])@ != needle,
    decreases args.len(),
{
    if args.len() > 0 && args[0]@ != needle {
        assert(spec_has_arg(args.skip(1), needle)) by {
            let i = choose|i: int| 0 <= i < args.len() && (#[trigger] args[i])@ == needle;
            assert((args.skip(1)[i - 1])@ == needle);
        }
        lemma_arg_index(args.skip(1), needle);
        assert forall|k: int| 0 <= k < spec_arg_index(args, needle) implies (#[trigger] args[k])@
            != needle by {
            if k > 0 {
                assert((args.skip(1)[k - 1])@ != needle);
            }
        }
    }
}

/// What looking up an option's parameter yields: the word after the first
/// occurrence of the flag, parsed as a number, unless there is no such
/// word or it is itself an option (it starts with a dash).
pub open spec fn spec_check_param(args: Seq<String>, needle: Seq<char>) -> Option<u32> {
    if !spec_has_arg(args, needle) {
        None
    } else {
        let idx = spec_arg_index(args, needle);
        if idx + 1 >= args.len() {
            None
        } else {
            let v = args[idx + 1]@;
            if v.len() > 0 && v[0] == '-' {
                None
            } else {
                spec_parse_u32(v)
            }
        }
    }
}

/// The stored command line: a plain argument list searched by the lookup
/// calls below.
pub struct Options {
    pub args: Vec<String>,
}

impl Options {
    /// Wraps an argument list for lookup.
    pub fn with_args(args: Vec<String>) -> (r: Options)
        ensures
            r.args@ == args@,
    {
        Options { args }
    }

    /// The parameter following the first occurrence of `argument`, parsed
    /// as a number. `None` when the flag is absent, is the last word, is
    /// followed by another option, or the word does not parse.
    pub fn check_param(&self, argument: &str) -> (r: Option<u32>)
        ensures
            r == spec_check_param(self.args@, argument@),
    {
        let n = self.args.len();
        let mut i: usize = 0;
        while i < n
            invariant
                i <= n,
                n == self.args@.len(),
                forall|k: int| 0 <= k < i ==> (#[trigger] self.args@[k])@ != argument@,
            decreases n - i,
        {
            if str_eq(self.args[i].as_str(), argument) {
                proof {
                    lemma_arg_index(self.args@, argument@);
                }
                if i + 1 >= n {
                    return None;
                }
                let next = self.args[i + 1].as_str();
                if next.unicode_len() > 0 && next.get_char(0) == '-' {
                    return None;
                }
                return parse_u32(next);
            }
            i += 1;
        }
        proof {
            if spec_has_arg(self.args@, argument@) {
                let k = choose|k: int|
                    0 <= k < n && (#[trigger] self.args@[k])@ == argument@;
                assert((self.args@[k])@ != argument@);
            }
        }
        None
    }

    /// Whether the bare flag `param` appears among the arguments.
    pub fn is_set(&self, param: &str) -> (r: bool)
        ensures
            r == spec_has_arg(self.args@, param@),
    {
        let n = self.args.len();
        let mut i: usize = 0;
        while i < n
            invariant
                i <= n,
                n == self.args@.len(),
                forall|k: int| 0 <= k < i ==> (#[trigger] self.args@[k])@ != param@,
            decreases n - i,
        {
            if str_eq(self.args[i].as_str(), param) {
                return true;
            }
            i += 1;
        }
        proof {
            if spec_has_arg(self.args@, param@) {
                let k = choose|k: int| 0 <= k < n && (#[trigger] self.args@[k])@ == param@;
                assert((self.args@[k])@ != param@);
            }
        }
        false
    }
}

} // verus!
