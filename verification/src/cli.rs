//! The `badge` command line verb: `badge set --key KEY --text TEXT --color
//! COLOR`, `badge clear --key KEY`, `badge list`, `badge help`. This module
//! decides what the command does; sending the request and printing belong to
//! the caller.

use vstd::prelude::*;
use crate::schema::{BadgeSetParams, BadgeClearParams};
use crate::text::{str_eq, str_chars, compare_chars, KeyOrder};

verus! {

/// The views of a sequence of strings.
pub open spec fn strings_view(v: Seq<String>) -> Seq<Seq<char>> {
    v.map_values(|s: String| s@)
}

/// `arg` is `name=value` for the first of `names` that fits: that name and
/// the value.
pub open spec fn split_equals(arg: Seq<char>, names: Seq<Seq<char>>) -> Option<(Seq<char>, Seq<char>)>
    decreases names.len(),
{
    if names.len() == 0 {
        None
    } else {
        let n = names[0];
        if arg.len() > n.len() && arg.take(n.len() as int) == n && arg[n.len() as int] == '=' {
            Some((n, arg.skip(n.len() as int + 1)))
        } else {
            split_equals(arg, names.drop_first())
        }
    }
}

/// The arguments with each `--name=value` of the given names written as
/// `--name value`, so both forms parse alike.
pub open spec fn expanded(args: Seq<Seq<char>>, names: Seq<Seq<char>>) -> Seq<Seq<char>>
    decreases args.len(),
{
    if args.len() == 0 {
        Seq::empty()
    } else {
        let rest = expanded(args.drop_last(), names);
        match split_equals(args.last(), names) {
            Some((n, v)) => rest.push(n).push(v),
            None => rest.push(args.last()),
        }
    }
}

/// Splits `arg` at the first of `names` it starts with followed by `=`.
fn split_arg(arg: &String, names: &[&str]) -> (r: Option<(String, String)>)
    ensures
        match split_equals(arg@, names@.map_values(|n: &str| n@)) {
            Some((n, v)) => r matches Some((a, b)) && a@ == n && b@ == v,
            None => r is None,
        },
{
    let ghost ns = names@.map_values(|n: &str| n@);
    let cs = str_chars(arg.as_str());
    assert(ns.skip(0) =~= ns);
    let mut i: usize = 0;
    while i < names.len()
        invariant
            i <= names@.len(),
            ns == names@.map_values(|n: &str| n@),
            cs@ == arg@,
            split_equals(arg@, ns) == split_equals(arg@, ns.skip(i as int)),
        decreases names.len() - i,
    {
        let ghost rest = ns.skip(i as int);
        assert(rest.drop_first() =~= ns.skip(i + 1));
        assert(rest[0] == names@[i as int]@);
        let nc = str_chars(names[i]);
        let n = nc.len();
        if cs.len() > n && cs[n] == '=' {
            let head = crate::text::sub_chars(cs.as_slice(), 0, n);
            if let KeyOrder::Equal = compare_chars(head.as_slice(), nc.as_slice()) {
                assert(head@ =~= arg@.take(n as int));
                let value = arg.as_str().substring_char(n + 1, cs.len()).to_owned();
                assert(value@ =~= arg@.skip(n + 1));
                return Some((names[i].to_owned(), value));
            }
            assert(head@ =~= arg@.take(n as int));
        }
        i = i + 1;
    }
    assert(ns.skip(i as int) =~= Seq::<Seq<char>>::empty());
    None
}

/// Writes each `--name=value` of the given names as `--name value`.
pub fn expand_equals_args(args: &[String], names: &[&str]) -> (r: Vec<String>)
    ensures
        strings_view(r@) == expanded(strings_view(args@), names@.map_values(|n: &str| n@)),
{
    let ghost ns = names@.map_values(|n: &str| n@);
    let ghost av = strings_view(args@);
    let mut out: Vec<String> = Vec::new();
    let mut i: usize = 0;
    while i < args.len()
        invariant
            i <= args@.len(),
            ns == names@.map_values(|n: &str| n@),
            av == strings_view(args@),
            strings_view(out@) == expanded(av.take(i as int), ns),
        decreases args.len() - i,
    {
        assert(av.take(i + 1).drop_last() =~= av.take(i as int));
        assert(av.take(i + 1).last() == args@[i as int]@);
        let ghost before = out@;
        match split_arg(&args[i], names) {
            Some((n, v)) => {
                out.push(n);
                out.push(v);
            },
            None => {
                out.push(args[i].clone());
            },
        }
        assert(strings_view(out@) =~= expanded(av.take(i + 1), ns));
        i = i + 1;
    }
    assert(av.take(i as int) =~= av);
    out
}

/// The usage line of `badge set`.
pub open spec fn set_usage() -> Seq<char> {
    "usage: herdr badge set --key KEY --text TEXT --color COLOR"@
}

/// The usage line of `badge clear`.
pub open spec fn clear_usage() -> Seq<char> {
    "usage: herdr badge clear --key KEY"@
}

/// The message for an argument that starts with `-` but names no option.
pub open spec fn unknown_option(option: Seq<char>) -> Seq<char> {
    "unknown option: "@ + option
}

/// The values of `badge set` read from `a[i..]`, on top of those already read;
/// a later repeat of an option wins.
pub open spec fn scan_set(
    a: Seq<Seq<char>>,
    i: int,
    key: Option<Seq<char>>,
    text: Option<Seq<char>>,
    color: Option<Seq<char>>,
) -> Result<(Option<Seq<char>>, Option<Seq<char>>, Option<Seq<char>>), Seq<char>>
    decreases a.len() - i,
{
    if i < 0 || i >= a.len() {
        Ok((key, text, color))
    } else if a[i] == "--key"@ {
        if i + 1 < a.len() {
            scan_set(a, i + 2, Some(a[i + 1]), text, color)
        } else {
            Err("missing value for --key"@)
        }
    } else if a[i] == "--text"@ {
        if i + 1 < a.len() {
            scan_set(a, i + 2, key, Some(a[i + 1]), color)
        } else {
            Err("missing value for --text"@)
        }
    } else if a[i] == "--color"@ {
        if i + 1 < a.len() {
            scan_set(a, i + 2, key, text, Some(a[i + 1]))
        } else {
            Err("missing value for --color"@)
        }
    } else if a[i].len() > 0 && a[i][0] == '-' {
        Err(unknown_option(a[i]))
    } else {
        Err(set_usage())
    }
}

/// The names `badge set` accepts in `--name=value` form.
pub open spec fn set_names() -> Seq<Seq<char>> {
    seq!["--key"@, "--text"@, "--color"@]
}

/// What `badge set` arguments give: key, text and color, or the message of
/// the first problem; each of the three options is required.
pub open spec fn set_args_result(args: Seq<Seq<char>>) -> Result<(Seq<char>, Seq<char>, Seq<char>), Seq<char>> {
    match scan_set(expanded(args, set_names()), 0, None, None, None) {
        Err(m) => Err(m),
        Ok((Some(k), Some(t), Some(c))) => Ok((k, t, c)),
        Ok(_) => Err(set_usage()),
    }
}

/// The key of `badge clear` read from `a[i..]`; a later repeat wins.
pub open spec fn scan_clear(a: Seq<Seq<char>>, i: int, key: Option<Seq<char>>) -> Result<
    Option<Seq<char>>,
    Seq<char>,
>
    decreases a.len() - i,
{
    if i < 0 || i >= a.len() {
        Ok(key)
    } else if a[i] == "--key"@ {
        if i + 1 < a.len() {
            scan_clear(a, i + 2, Some(a[i + 1]))
        } else {
            Err("missing value for --key"@)
        }
    } else if a[i].len() > 0 && a[i][0] == '-' {
        Err(unknown_option(a[i]))
    } else {
        Err(clear_usage())
    }
}

/// What `badge clear` arguments give: the key, or the message of the first
/// problem.
pub open spec fn clear_args_result(args: Seq<Seq<char>>) -> Result<Seq<char>, Seq<char>> {
    match scan_clear(expanded(args, seq!["--key"@]), 0, None) {
        Err(m) => Err(m),
        Ok(Some(k)) => Ok(k),
        Ok(None) => Err(clear_usage()),
    }
}

/// The view of an optional string.
pub open spec fn opt_view(o: Option<String>) -> Option<Seq<char>> {
    match o {
        Some(s) => Some(s@),
        None => None,
    }
}

fn starts_with_dash(s: &String) -> (r: bool)
    ensures
        r == (s@.len() > 0 && s@[0] == '-'),
{
    let cs = str_chars(s.as_str());
    cs.len() > 0 && cs[0] == '-'
}

/// Reads `badge set` arguments: `--key KEY --text TEXT --color COLOR`, in any
/// order, each also as `--name=value`.
pub fn parse_badge_set_args(args: &[String]) -> (r: Result<(String, String, String), String>)
    ensures
        match set_args_result(strings_view(args@)) {
            Ok((k, t, c)) => r matches Ok((rk, rt, rc)) && rk@ == k && rt@ == t && rc@ == c,
            Err(m) => r matches Err(rm) && rm@ == m,
        },
{
    let names: [&str; 3] = ["--key", "--text", "--color"];
    let ex = expand_equals_args(args, names.as_slice());
    assert(names@.map_values(|n: &str| n@) =~= set_names());
    let ghost a = strings_view(ex@);
    let mut key: Option<String> = None;
    let mut text: Option<String> = None;
    let mut color: Option<String> = None;
    let mut index: usize = 0;
    while index < ex.len()
        invariant
            a == strings_view(ex@),
            a == expanded(strings_view(args@), set_names()),
            scan_set(a, 0, None, None, None) == scan_set(a, index as int, opt_view(key), opt_view(text), opt_view(color)),
        decreases ex.len() - index,
    {
        let arg = ex[index].as_str();
        if str_eq(arg, "--key") {
            if index + 1 >= ex.len() {
                return Err("missing value for --key".to_owned());
            }
            key = Some(ex[index + 1].clone());
            index = index + 2;
        } else if str_eq(arg, "--text") {
            if index + 1 >= ex.len() {
                return Err("missing value for --text".to_owned());
            }
            text = Some(ex[index + 1].clone());
            index = index + 2;
        } else if str_eq(arg, "--color") {
            if index + 1 >= ex.len() {
                return Err("missing value for --color".to_owned());
            }
            color = Some(ex[index + 1].clone());
            index = index + 2;
        } else if starts_with_dash(&ex[index]) {
            return Err("unknown option: ".to_owned().concat(arg));
        } else {
            return Err("usage: herdr badge set --key KEY --text TEXT --color COLOR".to_owned());
        }
    }
    match (key, text, color) {
        (Some(k), Some(t), Some(c)) => Ok((k, t, c)),
        _ => Err("usage: herdr badge set --key KEY --text TEXT --color COLOR".to_owned()),
    }
}

/// Reads `badge clear` arguments: `--key KEY`, also as `--key=KEY`.
pub fn parse_badge_clear_args(args: &[String]) -> (r: Result<String, String>)
    ensures
        match clear_args_result(strings_view(args@)) {
            Ok(k) => r matches Ok(rk) && rk@ == k,
            Err(m) => r matches Err(rm) && rm@ == m,
        },
{
    let names: [&str; 1] = ["--key"];
    let ex = expand_equals_args(args, names.as_slice());
    assert(names@.map_values(|n: &str| n@) =~= seq!["--key"@]);
    let ghost a = strings_view(ex@);
    let mut key: Option<String> = None;
    let mut index: usize = 0;
    while index < ex.len()
        invariant
            a == strings_view(ex@),
            a == expanded(strings_view(args@), seq!["--key"@]),
            scan_clear(a, 0, None) == scan_clear(a, index as int, opt_view(key)),
        decreases ex.len() - index,
    {
        let arg = ex[index].as_str();
        if str_eq(arg, "--key") {
            if index + 1 >= ex.len() {
                return Err("missing value for --key".to_owned());
            }
            key = Some(ex[index + 1].clone());
            index = index + 2;
        } else if starts_with_dash(&ex[index]) {
            return Err("unknown option: ".to_owned().concat(arg));
        } else {
            return Err("usage: herdr badge clear --key KEY".to_owned());
        }
    }
    match key {
        Some(k) => Ok(k),
        None => Err("usage: herdr badge clear --key KEY".to_owned()),
    }
}

/// A request the `badge` verb sends.
#[derive(Debug, Clone, PartialEq, Eq)]
pub enum BadgeRequest {
    SetBadge(BadgeSetParams),
    ClearBadge(BadgeClearParams),
    ListBadges,
}

/// What the `badge` verb does.
#[derive(Debug, Clone, PartialEq, Eq)]
pub enum BadgeCliAction {
    /// Print the verb's help and exit with this code.
    PrintHelp { exit_code: i32 },
    /// Print this message to standard error and exit with code 2.
    Fail { message: String },
    /// Send this request and print the answer.
    Send(BadgeRequest),
}

/// What the `badge` verb does with its arguments (those after `badge`).
pub open spec fn badge_action(args: Seq<Seq<char>>) -> BadgeCliActionView {
    if args.len() == 0 {
        BadgeCliActionView::PrintHelp(2)
    } else {
        let sub = args[0];
        let rest = args.drop_first();
        if sub == "set"@ {
            match set_args_result(rest) {
                Ok((k, t, c)) => BadgeCliActionView::SendSet(k, t, c),
                Err(m) => BadgeCliActionView::Fail(m),
            }
        } else if sub == "clear"@ {
            match clear_args_result(rest) {
                Ok(k) => BadgeCliActionView::SendClear(k),
                Err(m) => BadgeCliActionView::Fail(m),
            }
        } else if sub == "list"@ {
            if rest.len() == 0 {
                BadgeCliActionView::SendList
            } else {
                BadgeCliActionView::Fail("usage: herdr badge list"@)
            }
        } else if sub == "help"@ || sub == "--help"@ || sub == "-h"@ {
            BadgeCliActionView::PrintHelp(0)
        } else {
            BadgeCliActionView::PrintHelp(2)
        }
    }
}

/// What a `badge` action holds.
pub enum BadgeCliActionView {
    PrintHelp(i32),
    Fail(Seq<char>),
    SendSet(Seq<char>, Seq<char>, Seq<char>),
    SendClear(Seq<char>),
    SendList,
}

impl BadgeCliAction {
    pub open spec fn action_view(&self) -> BadgeCliActionView {
        match self {
            BadgeCliAction::PrintHelp { exit_code } => BadgeCliActionView::PrintHelp(*exit_code),
            BadgeCliAction::Fail { message } => BadgeCliActionView::Fail(message@),
            BadgeCliAction::Send(BadgeRequest::SetBadge(p)) => BadgeCliActionView::SendSet(p.key@, p.text@, p.color@),
            BadgeCliAction::Send(BadgeRequest::ClearBadge(p)) => BadgeCliActionView::SendClear(p.key@),
            BadgeCliAction::Send(BadgeRequest::ListBadges) => BadgeCliActionView::SendList,
        }
    }
}

/// Decides what the `badge` verb does: with no subcommand or an unknown one
/// it prints help and exits 2; `help`, `--help`, `-h` print help and exit 0;
/// `set`, `clear` and `list` send their request once their arguments read
/// cleanly, and otherwise fail with a message (exit 2).
pub fn run_badge_command(args: &[String]) -> (r: BadgeCliAction)
    ensures
        r.action_view() == badge_action(strings_view(args@)),
{
    if args.len() == 0 {
        return BadgeCliAction::PrintHelp { exit_code: 2 };
    }
    let sub = args[0].as_str();
    let rest = crate::cli::tail(args);
    assert(strings_view(rest@) =~= strings_view(args@).drop_first());
    if str_eq(sub, "set") {
        match parse_badge_set_args(rest.as_slice()) {
            Ok((key, text, color)) => BadgeCliAction::Send(BadgeRequest::SetBadge(BadgeSetParams { key, text, color })),
            Err(message) => BadgeCliAction::Fail { message },
        }
    } else if str_eq(sub, "clear") {
        match parse_badge_clear_args(rest.as_slice()) {
            Ok(key) => BadgeCliAction::Send(BadgeRequest::ClearBadge(BadgeClearParams { key })),
            Err(message) => BadgeCliAction::Fail { message },
        }
    } else if str_eq(sub, "list") {
        if rest.len() == 0 {
            BadgeCliAction::Send(BadgeRequest::ListBadges)
        } else {
            BadgeCliAction::Fail { message: "usage: herdr badge list".to_owned() }
        }
    } else if str_eq(sub, "help") || str_eq(sub, "--help") || str_eq(sub, "-h") {
        BadgeCliAction::PrintHelp { exit_code: 0 }
    } else {
        BadgeCliAction::PrintHelp { exit_code: 2 }
    }
}

/// The arguments after the first.
fn tail(args: &[String]) -> (r: Vec<String>)
    requires
        args@.len() > 0,
    ensures
        r@ == args@.drop_first(),
{
    let mut out: Vec<String> = Vec::new();
    let mut i: usize = 1;
    while i < args.len()
        invariant
            1 <= i <= args@.len(),
            out@ == args@.subrange(1, i as int),
        decreases args.len() - i,
    {
        out.push(args[i].clone());
        i = i + 1;
        assert(out@ =~= args@.subrange(1, i as int));
    }
    assert(out@ =~= args@.drop_first());
    out
}

} // verus!

verus! {

/// `--name=value` and `--name value` read alike for the options of
/// `badge set`, as long as the value is not itself of the `--name=...` form.
pub proof fn law_equals_form(prefix: Seq<Seq<char>>, n: Seq<char>, v: Seq<char>)
    requires
        n == "--key"@ || n == "--text"@ || n == "--color"@,
        split_equals(v, set_names()) is None,
    ensures
        expanded(prefix.push(n + "="@ + v), set_names()) == expanded(prefix.push(n).push(v), set_names()),
{
    reveal_strlit("--key");
    reveal_strlit("--text");
    reveal_strlit("--color");
    reveal_strlit("=");
    reveal_with_fuel(split_equals, 4);
    let names = set_names();
    let x = n + "="@ + v;
    assert(prefix.push(x).drop_last() =~= prefix);
    assert(prefix.push(n).push(v).drop_last() =~= prefix.push(n));
    assert(prefix.push(n).drop_last() =~= prefix);
    let k = "--key"@;
    let t = "--text"@;
    let c = "--color"@;
    assert(names[0] == k);
    assert(names.drop_first() =~= seq![t, c]);
    assert(names.drop_first()[0] == t);
    assert(names.drop_first().drop_first()[0] == c);
    assert(names.drop_first().drop_first() =~= seq![c]);
    assert(names.drop_first().drop_first().drop_first() =~= Seq::<Seq<char>>::empty());
    // The joined form splits at its own name.
    assert(x[n.len() as int] == '=');
    assert(x.take(n.len() as int) =~= n);
    assert(x.skip(n.len() as int + 1) =~= v);
    if n == t {
        assert(x[2] != k[2]);
        assert(x.take(5) != k);
    }
    if n == c {
        assert(x[2] != k[2]);
        assert(x.take(5) != k);
        assert(x[2] != t[2]);
        assert(x.take(6) != t);
    }
    assert(split_equals(x, names) == Some((n, v)));
    // A bare name does not split.
    if n == c {
        assert(n[2] != k[2]);
        assert(n.take(5) != k);
        assert(n[2] != t[2]);
        assert(n.take(6) != t);
    }
    assert(split_equals(n, names) is None);
    let base = expanded(prefix, names);
    assert(prefix.push(x).last() == x);
    assert(expanded(prefix.push(x), names) == base.push(n).push(v));
    assert(prefix.push(n).last() == n);
    assert(expanded(prefix.push(n), names) == base.push(n));
    assert(prefix.push(n).push(v).last() == v);
    assert(expanded(prefix.push(n).push(v), names) == base.push(n).push(v));
}


/// The flags `badge set` takes, each with a value after it.
pub open spec fn set_flags() -> Set<Seq<char>> {
    set!["--key"@, "--text"@, "--color"@]
}

/// The flag `badge clear` takes.
pub open spec fn clear_flags() -> Set<Seq<char>> {
    set!["--key"@]
}

/// Position `i` of `a` is a flag position (even) that does not hold one of
/// `flags` followed by a value.
pub open spec fn bad_at(a: Seq<Seq<char>>, i: int, flags: Set<Seq<char>>) -> bool {
    &&& 0 <= i < a.len()
    &&& i % 2 == 0
    &&& !(flags.contains(a[i]) && i + 1 < a.len())
}

/// The message for a bad flag position: a flag without a value, an unknown
/// option, or the usage line for anything else.
pub open spec fn pair_error(a: Seq<Seq<char>>, i: int, flags: Set<Seq<char>>, usage: Seq<char>) -> Seq<char> {
    if flags.contains(a[i]) {
        "missing value for "@ + a[i]
    } else if a[i].len() > 0 && a[i][0] == '-' {
        unknown_option(a[i])
    } else {
        usage
    }
}

/// The value of the last pair `(flag, value)` of `a` whose flag is `f`.
pub open spec fn last_value(a: Seq<Seq<char>>, f: Seq<char>) -> Option<Seq<char>>
    decreases a.len(),
{
    if a.len() < 2 {
        None
    } else {
        match last_value(a.skip(2), f) {
            Some(v) => Some(v),
            None => if a[0] == f {
                Some(a[1])
            } else {
                None
            },
        }
    }
}

/// `later`, or `earlier` where there is no later one.
pub open spec fn or_else(later: Option<Seq<char>>, earlier: Option<Seq<char>>) -> Option<Seq<char>> {
    match later {
        Some(v) => Some(v),
        None => earlier,
    }
}

proof fn lemma_last_value_step(a: Seq<Seq<char>>, i: int, f: Seq<char>)
    requires
        0 <= i,
        i + 1 < a.len(),
    ensures
        last_value(a.skip(i), f) == (match last_value(a.skip(i + 2), f) {
            Some(v) => Some(v),
            None => if a[i] == f {
                Some(a[i + 1])
            } else {
                None
            },
        }),
{
    let s = a.skip(i);
    assert(s.skip(2) =~= a.skip(i + 2));
    assert(s[0] == a[i]);
    assert(s[1] == a[i + 1]);
}

proof fn lemma_flag_literals()
    ensures
        "--key"@ != "--text"@,
        "--key"@ != "--color"@,
        "--text"@ != "--color"@,
        "missing value for "@ + "--key"@ == "missing value for --key"@,
        "missing value for "@ + "--text"@ == "missing value for --text"@,
        "missing value for "@ + "--color"@ == "missing value for --color"@,
{
    reveal_strlit("--key");
    reveal_strlit("--text");
    reveal_strlit("--color");
    reveal_strlit("missing value for ");
    reveal_strlit("missing value for --key");
    reveal_strlit("missing value for --text");
    reveal_strlit("missing value for --color");
    assert("--key"@[2] != "--text"@[2]);
    assert("--key"@[2] != "--color"@[2]);
    assert("--text"@[2] != "--color"@[2]);
    assert("missing value for "@ + "--key"@ =~= "missing value for --key"@);
    assert("missing value for "@ + "--text"@ =~= "missing value for --text"@);
    assert("missing value for "@ + "--color"@ =~= "missing value for --color"@);
}

proof fn lemma_scan_set(
    a: Seq<Seq<char>>,
    i: int,
    key: Option<Seq<char>>,
    text: Option<Seq<char>>,
    color: Option<Seq<char>>,
)
    requires
        0 <= i <= a.len(),
        i % 2 == 0,
    ensures
        (forall|j: int| i <= j ==> !#[trigger] bad_at(a, j, set_flags())) ==> scan_set(a, i, key, text, color)
            == Ok::<_, Seq<char>>((
            or_else(last_value(a.skip(i), "--key"@), key),
            or_else(last_value(a.skip(i), "--text"@), text),
            or_else(last_value(a.skip(i), "--color"@), color),
        )),
        forall|b: int|
            i <= b && #[trigger] bad_at(a, b, set_flags()) && (forall|j: int| i <= j < b ==> !bad_at(a, j, set_flags()))
                ==> scan_set(a, i, key, text, color) == Err::<(Option<Seq<char>>, Option<Seq<char>>, Option<Seq<char>>), Seq<char>>(
                pair_error(a, b, set_flags(), set_usage())),
    decreases a.len() - i,
{
    lemma_flag_literals();
    if i == a.len() {
        assert(a.skip(i).len() == 0);
        return;
    }
    let f = a[i];
    if set_flags().contains(f) && i + 1 < a.len() {
        assert(!bad_at(a, i, set_flags()));
        lemma_last_value_step(a, i, "--key"@);
        lemma_last_value_step(a, i, "--text"@);
        lemma_last_value_step(a, i, "--color"@);
        if f == "--key"@ {
            lemma_scan_set(a, i + 2, Some(a[i + 1]), text, color);
        } else if f == "--text"@ {
            lemma_scan_set(a, i + 2, key, Some(a[i + 1]), color);
        } else {
            lemma_scan_set(a, i + 2, key, text, Some(a[i + 1]));
        }
        assert forall|b: int|
            i <= b && #[trigger] bad_at(a, b, set_flags()) && (forall|j: int| i <= j < b ==> !bad_at(a, j, set_flags()))
                implies i + 2 <= b by {
            if b < i + 2 {
                assert(b == i);
            }
        }
    } else {
        assert(bad_at(a, i, set_flags()));
        assert forall|b: int|
            i <= b && #[trigger] bad_at(a, b, set_flags()) && (forall|j: int| i <= j < b ==> !bad_at(a, j, set_flags()))
                implies b == i by {
            if b > i {
                assert(!bad_at(a, i, set_flags()));
            }
        }
    }
}

/// `badge set` arguments (after `--name=value` expansion) read as pairs
/// `(flag, value)`. When every flag position holds `--key`, `--text` or
/// `--color` with a value after it, the result is the value of the last pair
/// of each flag, or the usage line when one of the three is missing; else the
/// first bad flag position decides the error: a flag without a value, an
/// unknown option, or the usage line. A value may itself start with `-`.
pub proof fn law_set_args_pairs(args: Seq<Seq<char>>)
    ensures
        ({
            let a = expanded(args, set_names());
            &&& (forall|i: int| !#[trigger] bad_at(a, i, set_flags())) ==> set_args_result(args) == (match (
                last_value(a, "--key"@),
                last_value(a, "--text"@),
                last_value(a, "--color"@),
            ) {
                (Some(k), Some(t), Some(c)) => Ok((k, t, c)),
                _ => Err(set_usage()),
            })
            &&& forall|i: int|
                #[trigger] bad_at(a, i, set_flags()) && (forall|j: int| 0 <= j < i ==> !bad_at(a, j, set_flags()))
                    ==> set_args_result(args) == Err::<(Seq<char>, Seq<char>, Seq<char>), Seq<char>>(
                    pair_error(a, i, set_flags(), set_usage()))
        }),
{
    let a = expanded(args, set_names());
    assert(a.skip(0) =~= a);
    lemma_scan_set(a, 0, None, None, None);
}

proof fn lemma_scan_clear(a: Seq<Seq<char>>, i: int, key: Option<Seq<char>>)
    requires
        0 <= i <= a.len(),
        i % 2 == 0,
    ensures
        (forall|j: int| i <= j ==> !#[trigger] bad_at(a, j, clear_flags())) ==> scan_clear(a, i, key)
            == Ok::<Option<Seq<char>>, Seq<char>>(or_else(last_value(a.skip(i), "--key"@), key)),
        forall|b: int|
            i <= b && #[trigger] bad_at(a, b, clear_flags()) && (forall|j: int| i <= j < b ==> !bad_at(a, j, clear_flags()))
                ==> scan_clear(a, i, key) == Err::<Option<Seq<char>>, Seq<char>>(
                pair_error(a, b, clear_flags(), clear_usage())),
    decreases a.len() - i,
{
    lemma_flag_literals();
    if i == a.len() {
        assert(a.skip(i).len() == 0);
        return;
    }
    if clear_flags().contains(a[i]) && i + 1 < a.len() {
        assert(!bad_at(a, i, clear_flags()));
        lemma_last_value_step(a, i, "--key"@);
        lemma_scan_clear(a, i + 2, Some(a[i + 1]));
        assert forall|b: int|
            i <= b && #[trigger] bad_at(a, b, clear_flags()) && (forall|j: int| i <= j < b ==> !bad_at(a, j, clear_flags()))
                implies i + 2 <= b by {
            if b < i + 2 {
                assert(b == i);
            }
        }
    } else {
        assert(bad_at(a, i, clear_flags()));
        assert forall|b: int|
            i <= b && #[trigger] bad_at(a, b, clear_flags()) && (forall|j: int| i <= j < b ==> !bad_at(a, j, clear_flags()))
                implies b == i by {
            if b > i {
                assert(!bad_at(a, i, clear_flags()));
            }
        }
    }
}

/// `badge clear` arguments (after `--key=KEY` expansion) read as pairs
/// `("--key", value)`. When every flag position holds `--key` with a value
/// after it, the result is the value of the last pair, or the usage line when
/// there is none (as for no arguments at all); else the first bad flag
/// position decides the error: `--key` without a value, an unknown option, or
/// the usage line.
pub proof fn law_clear_args_pairs(args: Seq<Seq<char>>)
    ensures
        ({
            let a = expanded(args, seq!["--key"@]);
            &&& (forall|i: int| !#[trigger] bad_at(a, i, clear_flags())) ==> clear_args_result(args) == (match last_value(
                a,
                "--key"@,
            ) {
                Some(k) => Ok(k),
                None => Err(clear_usage()),
            })
            &&& forall|i: int|
                #[trigger] bad_at(a, i, clear_flags()) && (forall|j: int| 0 <= j < i ==> !bad_at(a, j, clear_flags()))
                    ==> clear_args_result(args) == Err::<Seq<char>, Seq<char>>(
                    pair_error(a, i, clear_flags(), clear_usage()))
        }),
{
    let a = expanded(args, seq!["--key"@]);
    assert(a.skip(0) =~= a);
    lemma_scan_clear(a, 0, None);
}

} // verus!
