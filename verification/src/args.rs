//! The command line of the demonstration program: which assignment and
//! objective to run, or which helper to call instead.

use crate::text::{chars_of, string_of};
use vstd::prelude::*;

verus! {

broadcast use vstd::string::axiom_spec_iter;

/// Length of the longest prefix of `s` without an `'='`.
pub open spec fn eq_free_len(s: Seq<char>) -> nat
    decreases s.len(),
{
    if s.len() == 0 {
        0
    } else if s[0] == '=' {
        0
    } else {
        1 + eq_free_len(s.drop_first())
    }
}

/// The second of the `'='`-separated fields of `s`: the text between the
/// first `'='` and the next one (or the end); none when `s` has no `'='`.
pub open spec fn second_field(s: Seq<char>) -> Option<Seq<char>> {
    let k = eq_free_len(s);
    if k < s.len() {
        let rest = s.skip(k + 1int);
        Some(rest.take(eq_free_len(rest) as int))
    } else {
        None
    }
}

/// Whether `s` begins with `p`.
pub open spec fn has_prefix(s: Seq<char>, p: Seq<char>) -> bool {
    p.len() <= s.len() && s.subrange(0, p.len() as int) == p
}

pub open spec fn is_digit(c: char) -> bool {
    '0' <= c && c <= '9'
}

/// Every character is a decimal digit.
pub open spec fn all_digits(d: Seq<char>) -> bool {
    forall|i: int| 0 <= i < d.len() ==> #[trigger] is_digit(d[i])
}

/// The number written by the decimal digits `d`.
pub open spec fn digits_value(d: Seq<char>) -> nat
    decreases d.len(),
{
    if d.len() == 0 {
        0
    } else {
        digits_value(d.drop_last()) * 10 + ((d.last() as int) - ('0' as int)) as nat
    }
}

/// A decimal integer as `str::parse::<i32>` reads it: an optional `+` or
/// `-`, then at least one digit, the value in range.
pub open spec fn spec_parse_i32(s: Seq<char>) -> Option<i32> {
    if s.len() == 0 {
        None
    } else {
        let neg = s[0] == '-';
        let d = if s[0] == '-' || s[0] == '+' {
            s.drop_first()
        } else {
            s
        };
        if d.len() == 0 || !all_digits(d) {
            None
        } else {
            let v = if neg {
                -digits_value(d)
            } else {
                digits_value(d) as int
            };
            if i32::MIN <= v <= i32::MAX {
                Some(v as i32)
            } else {
                None
            }
        }
    }
}

/// A decimal integer as `str::parse::<usize>` reads it: an optional `+`,
/// then at least one digit, the value in range.
pub open spec fn spec_parse_usize(s: Seq<char>) -> Option<usize> {
    let d = if s.len() > 0 && s[0] == '+' {
        s.drop_first()
    } else {
        s
    };
    if d.len() == 0 || !all_digits(d) || digits_value(d) > usize::MAX {
        None
    } else {
        Some(digits_value(d) as usize)
    }
}

/// What the command line asks for.
pub enum ArgCommand {
    /// Print the usage and stop (no arguments, or `-h`/`--help`).
    ShowHelp,
    /// The assignment number does not parse: report it and stop with an
    /// error.
    InvalidPa,
    /// The objective number does not parse: report it and stop with an
    /// error.
    InvalidObjective,
    /// An argument is not understood: report it and stop with an error.
    InvalidArgument,
    /// List the audio devices (`-d`/`--device`).
    ShowDevices,
    /// Write a file of this many random bits (`-g[=N]`, default 10000).
    Generate(usize),
    /// Run this assignment and objective, with this additional type.
    Run(i32, i32, String),
}

/// A command as plain values.
pub enum ArgCommandView {
    ShowHelp,
    InvalidPa,
    InvalidObjective,
    InvalidArgument,
    ShowDevices,
    Generate(usize),
    Run(i32, i32, Seq<char>),
}

impl ArgCommand {
    pub open spec fn command(&self) -> ArgCommandView {
        match self {
            ArgCommand::ShowHelp => ArgCommandView::ShowHelp,
            ArgCommand::InvalidPa => ArgCommandView::InvalidPa,
            ArgCommand::InvalidObjective => ArgCommandView::InvalidObjective,
            ArgCommand::InvalidArgument => ArgCommandView::InvalidArgument,
            ArgCommand::ShowDevices => ArgCommandView::ShowDevices,
            ArgCommand::Generate(n) => ArgCommandView::Generate(*n),
            ArgCommand::Run(p, o, t) => ArgCommandView::Run(*p, *o, t@),
        }
    }
}

/// The command given by arguments `args[i..]`, the assignment, objective and
/// type read so far being `pa`, `objective` and `ty`.
pub open spec fn spec_args_from(
    args: Seq<Seq<char>>,
    i: nat,
    pa: i32,
    objective: i32,
    ty: Seq<char>,
) -> ArgCommandView
    decreases args.len() - i,
{
    if i >= args.len() {
        ArgCommandView::Run(pa, objective, ty)
    } else {
        let a = args[i as int];
        if a == "-h"@ || a == "--help"@ {
            ArgCommandView::ShowHelp
        } else if has_prefix(a, "-p="@) || has_prefix(a, "--pa="@) {
            match spec_parse_i32(second_field(a)->0) {
                Some(n) => spec_args_from(args, i + 1, n, objective, ty),
                None => ArgCommandView::InvalidPa,
            }
        } else if has_prefix(a, "-o="@) || has_prefix(a, "--objective="@) {
            match spec_parse_i32(second_field(a)->0) {
                Some(n) => spec_args_from(args, i + 1, pa, n, ty),
                None => ArgCommandView::InvalidObjective,
            }
        } else if a == "-d"@ || a == "--device"@ {
            ArgCommandView::ShowDevices
        } else if has_prefix(a, "-g"@) || has_prefix(a, "--generate"@) {
            ArgCommandView::Generate(
                match second_field(a) {
                    Some(f) => match spec_parse_usize(f) {
                        Some(n) => n,
                        None => 10000,
                    },
                    None => 10000,
                },
            )
        } else if has_prefix(a, "-t="@) || has_prefix(a, "--type="@) {
            spec_args_from(args, i + 1, pa, objective, second_field(a)->0)
        } else {
            ArgCommandView::InvalidArgument
        }
    }
}

/// The command given by the argument list `args`.
pub open spec fn spec_arg_command(args: Seq<Seq<char>>) -> ArgCommandView {
    if args.len() == 0 {
        ArgCommandView::ShowHelp
    } else {
        spec_args_from(args, 0, 0, 0, Seq::empty())
    }
}

/// Reaching the argument `-d` or `--device` shows the devices, whatever was
/// set before it and whatever follows.
pub proof fn lemma_device_argument_shows_devices(
    args: Seq<Seq<char>>,
    i: nat,
    pa: i32,
    objective: i32,
    ty: Seq<char>,
)
    requires
        i < args.len(),
        args[i as int] == seq!['-', 'd'] || args[i as int] == seq!['-', '-', 'd', 'e', 'v', 'i', 'c', 'e'],
    ensures
        spec_args_from(args, i, pa, objective, ty) == ArgCommandView::ShowDevices,
        i == 0 ==> spec_arg_command(args) == ArgCommandView::ShowDevices,
{
    reveal_strlit("-h");
    reveal_strlit("--help");
    reveal_strlit("-p=");
    reveal_strlit("--pa=");
    reveal_strlit("-o=");
    reveal_strlit("--objective=");
    reveal_strlit("-d");
    reveal_strlit("--device");
    let a = args[i as int];
    if a == seq!['-', 'd'] {
        assert(a != "-h"@ && a != "--help"@);
        assert(!has_prefix(a, "-p="@) && !has_prefix(a, "--pa="@));
        assert(!has_prefix(a, "-o="@) && !has_prefix(a, "--objective="@));
        assert(a == "-d"@);
    } else {
        assert(a[2] != "-h"@[1]);
        assert(a.len() != "--help"@.len());
        assert(!has_prefix(a, "-p="@)) by {
            assert(a.subrange(0, 3)[1] != "-p="@[1]);
        }
        assert(!has_prefix(a, "--pa="@)) by {
            assert(a.subrange(0, 5)[2] != "--pa="@[2]);
        }
        assert(!has_prefix(a, "-o="@)) by {
            assert(a.subrange(0, 3)[1] != "-o="@[1]);
        }
        assert(!has_prefix(a, "--objective="@));
        assert(a =~= "--device"@);
    }
}

/// Whether `a` begins with the characters of `p`.
fn starts_with(a: &Vec<char>, p: &str) -> (b: bool)
    ensures
        b == has_prefix(a@, p@),
{
    let pc = chars_of(p);
    if pc.len() > a.len() {
        return false;
    }
    for i in 0..pc.len()
        invariant
            pc@ == p@,
            pc@.len() <= a@.len(),
            a@.subrange(0, i as int) == pc@.take(i as int),
    {
        if a[i] != pc[i] {
            assert(a@.subrange(0, pc@.len() as int)[i as int] != pc@[i as int]);
            return false;
        }
        assert(a@.subrange(0, i + 1) =~= pc@.take(i + 1));
    }
    assert(pc@.take(pc@.len() as int) == pc@);
    true
}

/// Whether `a` consists of the characters of `p`.
fn equals(a: &Vec<char>, p: &str) -> (b: bool)
    ensures
        b == (a@ == p@),
{
    let pc = chars_of(p);
    if pc.len() != a.len() {
        return false;
    }
    let r = starts_with(a, p);
    assert(a@ =~= a@.subrange(0, pc@.len() as int));
    r
}

proof fn lemma_eq_free_len_bound(s: Seq<char>)
    ensures
        eq_free_len(s) <= s.len(),
        eq_free_len(s) < s.len() ==> s[eq_free_len(s) as int] == '=',
    decreases s.len(),
{
    if s.len() > 0 && s[0] != '=' {
        lemma_eq_free_len_bound(s.drop_first());
    }
}

proof fn lemma_eq_free_len_step(s: Seq<char>, i: int)
    requires
        0 <= i < s.len(),
    ensures
        eq_free_len(s.skip(i)) == if s[i] == '=' {
            0
        } else {
            1 + eq_free_len(s.skip(i + 1))
        },
{
    assert(s.skip(i).drop_first() =~= s.skip(i + 1));
}

/// A string with an `'='` has a second field.
proof fn lemma_prefixed_has_field(a: Seq<char>, p: Seq<char>)
    requires
        has_prefix(a, p),
        p.len() > 0,
        p[p.len() - 1] == '=',
    ensures
        second_field(a) is Some,
{
    lemma_eq_free_len_bound(a);
    assert(a.subrange(0, p.len() as int)[p.len() - 1] == a[p.len() - 1]);
    lemma_eq_free_len_first(a, p.len() - 1);
}

/// No `'='` stands before position `eq_free_len(s)`.
proof fn lemma_eq_free_len_first(s: Seq<char>, j: int)
    requires
        0 <= j < s.len(),
        s[j] == '=',
    ensures
        eq_free_len(s) <= j,
    decreases s.len(),
{
    if s[0] != '=' {
        lemma_eq_free_len_first(s.drop_first(), j - 1);
    }
}

/// The position of the first `'='` in `a` at or after `from`, or the length
/// of `a` when there is none.
fn find_eq(a: &Vec<char>, from: usize) -> (k: usize)
    requires
        from <= a@.len(),
    ensures
        k == from + eq_free_len(a@.skip(from as int)),
{
    let mut k = from;
    while k < a.len() && a[k] != '='
        invariant
            from <= k <= a@.len(),
            eq_free_len(a@.skip(from as int)) == (k - from) + eq_free_len(a@.skip(k as int)),
        decreases a@.len() - k,
    {
        proof {
            lemma_eq_free_len_step(a@, k as int);
        }
        k = k + 1;
    }
    proof {
        if k < a@.len() {
            lemma_eq_free_len_step(a@, k as int);
        } else {
            assert(a@.skip(k as int).len() == 0);
        }
    }
    k
}

/// The second `'='`-separated field of `a`, if it has an `'='`.
fn get_second_field(a: &Vec<char>) -> (f: Option<Vec<char>>)
    ensures
        f matches Some(v) ==> second_field(a@) == Some(v@),
        f is None ==> second_field(a@) is None,
{
    let k = find_eq(a, 0);
    assert(a@.skip(0) == a@);
    if k >= a.len() {
        return None;
    }
    let end = find_eq(a, k + 1);
    proof {
        lemma_eq_free_len_bound(a@.skip(k + 1));
    }
    let v = vstd::slice::slice_to_vec(&a.as_slice()[k + 1..end]);
    assert(v@ =~= a@.skip(k + 1).take(eq_free_len(a@.skip(k + 1)) as int));
    Some(v)
}

proof fn lemma_digits_value_step(d: Seq<char>, i: int)
    requires
        0 <= i < d.len(),
    ensures
        digits_value(d.take(i + 1)) == digits_value(d.take(i)) * 10 + ((d[i] as int) - ('0' as int)) as nat,
        is_digit(d[i]) ==> digits_value(d.take(i)) <= digits_value(d.take(i + 1)),
{
    assert(d.take(i + 1).drop_last() =~= d.take(i));
}

/// A longer run of digits is worth at least as much as its prefixes.
proof fn lemma_digits_monotone(s: Seq<char>, k: int)
    requires
        0 <= k <= s.len(),
        all_digits(s),
    ensures
        digits_value(s.take(k)) <= digits_value(s),
    decreases s.len() - k,
{
    if k < s.len() {
        lemma_digits_value_step(s, k);
        lemma_digits_monotone(s, k + 1);
    } else {
        assert(s.take(k) =~= s);
    }
}

/// The value of the digits `d[from..]` if they are all digits and the value
/// is at most `limit`.
fn digits_up_to(d: &Vec<char>, from: usize, limit: u64) -> (r: Option<u64>)
    requires
        from <= d@.len(),
        limit >= 9,
    ensures
        r matches Some(v) ==> all_digits(d@.skip(from as int)) && v == digits_value(
            d@.skip(from as int),
        ) && v <= limit,
        r is None ==> !all_digits(d@.skip(from as int)) || digits_value(d@.skip(from as int))
            > limit,
{
    let ghost s = d@.skip(from as int);
    let mut acc: u64 = 0;
    let mut i = from;
    while i < d.len()
        invariant
            from <= i <= d@.len(),
            s == d@.skip(from as int),
            all_digits(s.take(i - from)),
            acc == digits_value(s.take(i - from)),
            acc <= limit,
            limit >= 9,
        decreases d@.len() - i,
    {
        let c = d[i];
        let ghost j = i - from;
        proof {
            lemma_digits_value_step(s, j);
            assert(s[j] == c);
        }
        if !('0' <= c && c <= '9') {
            proof {
                assert(!is_digit(s[j]));
            }
            return None;
        }
        let digit = (c as u64) - ('0' as u64);
        assert(digit <= 9 && digit == ((s[j] as int) - ('0' as int)) as nat);
        if acc > (limit - digit) / 10 {
            proof {
                assert(acc * 10 + digit > limit) by (nonlinear_arith)
                    requires
                        acc > (limit - digit) / 10,
                        limit >= digit,
                ;
                if all_digits(s) {
                    lemma_digits_monotone(s, j + 1);
                }
            }
            return None;
        }
        proof {
            assert(acc * 10 + digit <= limit) by (nonlinear_arith)
                requires
                    acc <= (limit - digit) / 10,
                    limit >= digit,
            ;
            assert forall|t: int| 0 <= t < j + 1 implies #[trigger] is_digit(s.take(j + 1)[t]) by {
                if t < j {
                    assert(s.take(j + 1)[t] == s.take(j)[t]);
                }
            }
        }
        acc = acc * 10 + digit;
        i = i + 1;
    }
    assert(s.take(i - from) =~= s);
    Some(acc)
}

/// The `i32` written in `s`, read as `str::parse::<i32>` reads it.
pub fn parse_i32(s: &Vec<char>) -> (r: Option<i32>)
    ensures
        r == spec_parse_i32(s@),
{
    if s.len() == 0 {
        return None;
    }
    let neg = s[0] == '-';
    let from: usize = if s[0] == '-' || s[0] == '+' {
        1
    } else {
        0
    };
    let ghost d = if s@[0] == '-' || s@[0] == '+' {
        s@.drop_first()
    } else {
        s@
    };
    assert(d =~= s@.skip(from as int));
    if from == s.len() {
        return None;
    }
    let limit: u64 = if neg {
        2147483648
    } else {
        2147483647
    };
    match digits_up_to(s, from, limit) {
        None => None,
        Some(v) => {
            if neg {
                if v == 2147483648 {
                    Some(i32::MIN)
                } else {
                    let m: i32 = v as i32;
                    Some(-m)
                }
            } else {
                Some(v as i32)
            }
        },
    }
}

/// The `usize` written in `s`, read as `str::parse::<usize>` reads it.
pub fn parse_usize(s: &Vec<char>) -> (r: Option<usize>)
    ensures
        r == spec_parse_usize(s@),
{
    let from: usize = if s.len() > 0 && s[0] == '+' {
        1
    } else {
        0
    };
    let ghost d = if s@.len() > 0 && s@[0] == '+' {
        s@.drop_first()
    } else {
        s@
    };
    assert(d =~= s@.skip(from as int));
    if from == s.len() {
        return None;
    }
    let limit: u64 = usize::MAX as u64;
    match digits_up_to(s, from, limit) {
        None => None,
        Some(v) => Some(v as usize),
    }
}

/// Reads the command line (the arguments after the program's name).
pub fn arg_parser(args: Vec<String>) -> (r: ArgCommand)
    ensures
        r.command() == spec_arg_command(args@.map_values(|a: String| a@)),
{
    let ghost all = args@.map_values(|a: String| a@);
    if args.len() == 0 {
        return ArgCommand::ShowHelp;
    }
    let mut pa: i32 = 0;
    let mut objective: i32 = 0;
    let mut ty = String::new();
    let mut i: usize = 0;
    while i < args.len()
        invariant
            all == args@.map_values(|a: String| a@),
            0 < args@.len(),
            i <= args@.len(),
            spec_arg_command(all) == spec_args_from(all, i as nat, pa, objective, ty@),
        decreases args@.len() - i,
    {
        let a = chars_of(args[i].as_str());
        assert(a@ == all[i as int]);
        if equals(&a, "-h") || equals(&a, "--help") {
            return ArgCommand::ShowHelp;
        } else if starts_with(&a, "-p=") || starts_with(&a, "--pa=") {
            proof {
                reveal_strlit("-p=");
                reveal_strlit("--pa=");
                if has_prefix(a@, "-p="@) {
                    lemma_prefixed_has_field(a@, "-p="@);
                } else {
                    lemma_prefixed_has_field(a@, "--pa="@);
                }
            }
            let f = get_second_field(&a);
            match f {
                Some(f) => match parse_i32(&f) {
                    Some(n) => {
                        pa = n;
                    },
                    None => {
                        return ArgCommand::InvalidPa;
                    },
                },
                None => {
                    return ArgCommand::InvalidPa;
                },
            }
        } else if starts_with(&a, "-o=") || starts_with(&a, "--objective=") {
            proof {
                reveal_strlit("-o=");
                reveal_strlit("--objective=");
                if has_prefix(a@, "-o="@) {
                    lemma_prefixed_has_field(a@, "-o="@);
                } else {
                    lemma_prefixed_has_field(a@, "--objective="@);
                }
            }
            let f = get_second_field(&a);
            match f {
                Some(f) => match parse_i32(&f) {
                    Some(n) => {
                        objective = n;
                    },
                    None => {
                        return ArgCommand::InvalidObjective;
                    },
                },
                None => {
                    return ArgCommand::InvalidObjective;
                },
            }
        } else if equals(&a, "-d") || equals(&a, "--device") {
            return ArgCommand::ShowDevices;
        } else if starts_with(&a, "-g") || starts_with(&a, "--generate") {
            let n: usize = match get_second_field(&a) {
                Some(f) => match parse_usize(&f) {
                    Some(n) => n,
                    None => 10000,
                },
                None => 10000,
            };
            return ArgCommand::Generate(n);
        } else if starts_with(&a, "-t=") || starts_with(&a, "--type=") {
            proof {
                reveal_strlit("-t=");
                reveal_strlit("--type=");
                if has_prefix(a@, "-t="@) {
                    lemma_prefixed_has_field(a@, "-t="@);
                } else {
                    lemma_prefixed_has_field(a@, "--type="@);
                }
            }
            match get_second_field(&a) {
                Some(f) => {
                    ty = string_of(&f);
                },
                None => {
                    return ArgCommand::InvalidArgument;
                },
            }
        } else {
            return ArgCommand::InvalidArgument;
        }
        i = i + 1;
    }
    ArgCommand::Run(pa, objective, ty)
}

} // verus!
