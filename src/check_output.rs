use crate::stack::{reverse_rotated, rotated, strictly_ascending, swapped, transferred, Stack};
use vstd::prelude::*;
use vstd::string::StringExecFns;

verus! {

broadcast use vstd::string::group_string_axioms;

/// Why a script was rejected.
pub enum ExecError {
    /// A line that is none of the eleven moves; holds the trimmed line.
    BadCommand(String),
    /// The script ended with elements left on stack b.
    StackBNotEmpty,
    /// The script ended with stack a out of order.
    NotSorted,
}

/// The text that describes `e`.
pub open spec fn error_text(e: ExecError) -> Seq<char> {
    match e {
        ExecError::BadCommand(x) => "unknown command: "@ + x@,
        ExecError::StackBNotEmpty => "stack b is not empty"@,
        ExecError::NotSorted => "stack a is not sorted"@,
    }
}

impl ExecError {
    /// A one-line description of the error.
    pub fn to_string(&self) -> (r: String)
        ensures
            r@ == error_text(*self),
    {
        match self {
            ExecError::BadCommand(x) => {
                let mut text = String::from_str("unknown command: ");
                text.append(x.as_str());
                text
            },
            ExecError::StackBNotEmpty => String::from_str("stack b is not empty"),
            ExecError::NotSorted => String::from_str("stack a is not sorted"),
        }
    }
}

/// One instruction of the two-stack machine.
#[derive(Clone, Copy, Debug, PartialEq, Eq)]
pub enum Move {
    Sa,
    Sb,
    Ss,
    Ra,
    Rb,
    Rr,
    Rra,
    Rrb,
    Rrr,
    Pa,
    Pb,
}

/// Whether `c` has the Unicode White_Space property.
pub uninterp spec fn is_white_space(c: char) -> bool;

/// Relies on char::is_whitespace: whether `c` is Unicode white space.
#[verifier::external_body]
fn char_is_white_space(c: char) -> (r: bool)
    ensures
        r == is_white_space(c),
{
    c.is_whitespace()
}

/// `s` without its leading white space.
pub open spec fn trim_start(s: Seq<char>) -> Seq<char>
    decreases s.len(),
{
    if s.len() > 0 && is_white_space(s[0]) {
        trim_start(s.drop_first())
    } else {
        s
    }
}

/// `s` without its trailing white space.
pub open spec fn trim_end(s: Seq<char>) -> Seq<char>
    decreases s.len(),
{
    if s.len() > 0 && is_white_space(s.last()) {
        trim_end(s.drop_last())
    } else {
        s
    }
}

/// `s` without its leading and trailing white space.
pub open spec fn trimmed(s: Seq<char>) -> Seq<char> {
    trim_end(trim_start(s))
}

/// The lines of `s[i..]`, where the line being read began at `start`: a
/// line ends at each newline, and a last line without one counts when it is
/// not empty.
pub open spec fn lines_from(s: Seq<char>, i: int, start: int) -> Seq<Seq<char>>
    decreases s.len() - i,
{
    if i >= s.len() {
        if start < s.len() {
            seq![s.subrange(start, s.len() as int)]
        } else {
            seq![]
        }
    } else if s[i] == '\n' {
        seq![s.subrange(start, i)] + lines_from(s, i + 1, i + 1)
    } else {
        lines_from(s, i + 1, start)
    }
}

/// The lines of a script, without their line ends.
pub open spec fn script_lines(s: Seq<char>) -> Seq<Seq<char>> {
    lines_from(s, 0, 0)
}

/// The move that a trimmed token names, if any.
pub open spec fn parse_move(t: Seq<char>) -> Option<Move> {
    if t == seq!['s', 'a'] {
        Some(Move::Sa)
    } else if t == seq!['s', 'b'] {
        Some(Move::Sb)
    } else if t == seq!['s', 's'] {
        Some(Move::Ss)
    } else if t == seq!['r', 'a'] {
        Some(Move::Ra)
    } else if t == seq!['r', 'b'] {
        Some(Move::Rb)
    } else if t == seq!['r', 'r'] {
        Some(Move::Rr)
    } else if t == seq!['r', 'r', 'a'] {
        Some(Move::Rra)
    } else if t == seq!['r', 'r', 'b'] {
        Some(Move::Rrb)
    } else if t == seq!['r', 'r', 'r'] {
        Some(Move::Rrr)
    } else if t == seq!['p', 'a'] {
        Some(Move::Pa)
    } else if t == seq!['p', 'b'] {
        Some(Move::Pb)
    } else {
        None
    }
}

/// Stacks a and b after move `m`.
pub open spec fn apply_move(m: Move, a: Seq<i32>, b: Seq<i32>) -> (Seq<i32>, Seq<i32>) {
    match m {
        Move::Sa => (swapped(a), b),
        Move::Sb => (a, swapped(b)),
        Move::Ss => (swapped(a), swapped(b)),
        Move::Ra => (rotated(a), b),
        Move::Rb => (a, rotated(b)),
        Move::Rr => (rotated(a), rotated(b)),
        Move::Rra => (reverse_rotated(a), b),
        Move::Rrb => (a, reverse_rotated(b)),
        Move::Rrr => (reverse_rotated(a), reverse_rotated(b)),
        Move::Pa => {
            let (b1, a1) = transferred(b, a);
            (a1, b1)
        },
        Move::Pb => transferred(a, b),
    }
}

/// Stacks a and b after running the trimmed lines `tokens` in order from
/// `(a, b)`, or the first of them that names no move.
pub open spec fn run_tokens(a: Seq<i32>, b: Seq<i32>, tokens: Seq<Seq<char>>) -> Result<
    (Seq<i32>, Seq<i32>),
    Seq<char>,
>
    decreases tokens.len(),
{
    if tokens.len() == 0 {
        Ok((a, b))
    } else {
        match parse_move(tokens[0]) {
            None => Err(tokens[0]),
            Some(m) => {
                let (a1, b1) = apply_move(m, a, b);
                run_tokens(a1, b1, tokens.drop_first())
            },
        }
    }
}

/// The lines of a script, each trimmed of white space.
pub open spec fn script_tokens(s: Seq<char>) -> Seq<Seq<char>> {
    script_lines(s).map_values(|l: Seq<char>| trimmed(l))
}

/// Whether `r` is the outcome of running the trimmed lines `tokens` from
/// stack a `initial` and an empty stack b: the first line that names no
/// move, else stack b left non-empty, else stack a out of order, else the
/// number of lines.
pub open spec fn verdict(
    r: Result<usize, ExecError>,
    initial: Seq<i32>,
    tokens: Seq<Seq<char>>,
) -> bool {
    match run_tokens(initial, Seq::empty(), tokens) {
        Err(token) => {
            &&& r is Err
            &&& r->Err_0 is BadCommand
            &&& r->Err_0->BadCommand_0@ == token
        },
        Ok((a, b)) => if b.len() > 0 {
            r is Err && r->Err_0 is StackBNotEmpty
        } else if !strictly_ascending(a) {
            r is Err && r->Err_0 is NotSorted
        } else {
            r is Ok && r->Ok_0 == tokens.len()
        },
    }
}

/// Relies on String's FromIterator<&char>: the string of `chars`, in order.
#[verifier::external_body]
fn string_from_chars(chars: &[char]) -> (r: String)
    ensures
        r@ == chars@,
{
    chars.iter().collect()
}

/// The characters of `s`, in order.
fn chars_of(s: &str) -> (r: Vec<char>)
    ensures
        r@ == s@,
{
    let mut out: Vec<char> = Vec::new();
    for c in it: s.chars()
        invariant
            out@ == it.seq().take(it.index() as int),
    {
        out.push(c);
        assert(out@ =~= it.seq().take(it.index() as int + 1));
    }
    assert(out@ =~= s@);
    out
}

/// The bounds of `chars[lo..hi]` once white space is trimmed from both ends.
fn trim_bounds(chars: &Vec<char>, lo: usize, hi: usize) -> (r: (usize, usize))
    requires
        lo <= hi <= chars@.len(),
    ensures
        lo <= r.0 <= r.1 <= hi,
        chars@.subrange(r.0 as int, r.1 as int) == trimmed(chars@.subrange(lo as int, hi as int)),
{
    let ghost s = chars@;
    let mut i: usize = lo;
    while i < hi
        invariant
            lo <= i <= hi,
            hi <= s.len(),
            s == chars@,
            trim_start(s.subrange(lo as int, hi as int)) == trim_start(
                s.subrange(i as int, hi as int),
            ),
        ensures
            lo <= i <= hi,
            trim_start(s.subrange(lo as int, hi as int)) == s.subrange(i as int, hi as int),
        decreases hi - i,
    {
        if !char_is_white_space(chars[i]) {
            break;
        }
        assert(s.subrange(i as int, hi as int).drop_first() =~= s.subrange(i + 1, hi as int));
        i += 1;
    }
    let mut j: usize = hi;
    while j > i
        invariant
            lo <= i <= j <= hi,
            hi <= s.len(),
            s == chars@,
            trim_end(s.subrange(i as int, hi as int)) == trim_end(s.subrange(i as int, j as int)),
        ensures
            i <= j <= hi,
            trim_end(s.subrange(i as int, hi as int)) == s.subrange(i as int, j as int),
        decreases j - i,
    {
        if !char_is_white_space(chars[j - 1]) {
            break;
        }
        assert(s.subrange(i as int, j as int).drop_last() =~= s.subrange(i as int, j - 1));
        j -= 1;
    }
    (i, j)
}

proof fn lemma_two_chars(t: Seq<char>)
    requires
        t.len() == 2,
    ensures
        forall|x: char, y: char| #[trigger] seq![x, y] == t <==> (t[0] == x && t[1] == y),
{
    assert forall|x: char, y: char| #[trigger] seq![x, y] == t <==> (t[0] == x && t[1] == y) by {
        if t[0] == x && t[1] == y {
            assert(t =~= seq![x, y]);
        }
        if seq![x, y] == t {
            assert(seq![x, y][0] == x && seq![x, y][1] == y);
        }
    }
}

proof fn lemma_three_chars(t: Seq<char>)
    requires
        t.len() == 3,
    ensures
        forall|x: char, y: char, z: char| #[trigger] seq![x, y, z] == t <==> (t[0] == x && t[1] == y
            && t[2] == z),
{
    assert forall|x: char, y: char, z: char| #[trigger] seq![x, y, z] == t <==> (t[0] == x && t[1]
        == y && t[2] == z) by {
        if t[0] == x && t[1] == y && t[2] == z {
            assert(t =~= seq![x, y, z]);
        }
        if seq![x, y, z] == t {
            assert(seq![x, y, z][0] == x && seq![x, y, z][1] == y && seq![x, y, z][2] == z);
        }
    }
}

proof fn lemma_token_lengths()
    ensures
        forall|x: char, y: char| (#[trigger] seq![x, y]).len() == 2,
        forall|x: char, y: char, z: char| (#[trigger] seq![x, y, z]).len() == 3,
{
}

/// `chars[lo..hi]` trimmed of white space at both ends.
fn trimmed_string(chars: &Vec<char>, lo: usize, hi: usize) -> (r: String)
    requires
        lo <= hi <= chars@.len(),
    ensures
        r@ == trimmed(chars@.subrange(lo as int, hi as int)),
{
    let (t0, t1) = trim_bounds(chars, lo, hi);
    string_from_chars(vstd::slice::slice_subrange(chars.as_slice(), t0, t1))
}

/// The move that `chars[lo..hi]` names, if any.
fn parse_move_at(chars: &Vec<char>, lo: usize, hi: usize) -> (r: Option<Move>)
    requires
        lo <= hi <= chars@.len(),
    ensures
        r == parse_move(chars@.subrange(lo as int, hi as int)),
{
    let ghost t = chars@.subrange(lo as int, hi as int);
    proof {
        lemma_token_lengths();
    }
    let n = hi - lo;
    if n == 2 {
        let c0 = chars[lo];
        let c1 = chars[lo + 1];
        proof {
            lemma_two_chars(t);
        }
        match (c0, c1) {
            ('s', 'a') => Some(Move::Sa),
            ('s', 'b') => Some(Move::Sb),
            ('s', 's') => Some(Move::Ss),
            ('r', 'a') => Some(Move::Ra),
            ('r', 'b') => Some(Move::Rb),
            ('r', 'r') => Some(Move::Rr),
            ('p', 'a') => Some(Move::Pa),
            ('p', 'b') => Some(Move::Pb),
            _ => None,
        }
    } else if n == 3 {
        let c0 = chars[lo];
        let c1 = chars[lo + 1];
        let c2 = chars[lo + 2];
        proof {
            lemma_three_chars(t);
        }
        match (c0, c1, c2) {
            ('r', 'r', 'a') => Some(Move::Rra),
            ('r', 'r', 'b') => Some(Move::Rrb),
            ('r', 'r', 'r') => Some(Move::Rrr),
            _ => None,
        }
    } else {
        None
    }
}

/// Applies move `m` to stacks a and b.
pub fn execute(m: Move, stack_a: &mut Stack, stack_b: &mut Stack)
    ensures
        (final(stack_a)@, final(stack_b)@) == apply_move(m, old(stack_a)@, old(stack_b)@),
{
    match m {
        Move::Sa => stack_a.swap(),
        Move::Sb => stack_b.swap(),
        Move::Ss => {
            stack_a.swap();
            stack_b.swap();
        },
        Move::Ra => stack_a.rotate(),
        Move::Rb => stack_b.rotate(),
        Move::Rr => {
            stack_a.rotate();
            stack_b.rotate();
        },
        Move::Rra => stack_a.reverse_rotate(),
        Move::Rrb => stack_b.reverse_rotate(),
        Move::Rrr => {
            stack_a.reverse_rotate();
            stack_b.reverse_rotate();
        },
        Move::Pa => stack_a.receive_push_from_other(stack_b),
        Move::Pb => stack_b.receive_push_from_other(stack_a),
    }
}

/// The views of `v`.
pub open spec fn views_of(v: Seq<String>) -> Seq<Seq<char>> {
    v.map_values(|t: String| t@)
}

/// The trimmed lines of `output`, in order.
pub fn trimmed_lines(output: &str) -> (r: Vec<String>)
    ensures
        views_of(r@) == script_tokens(output@),
{
    let chars = chars_of(output);
    let ghost s = chars@;
    let n = chars.len();
    let mut tokens: Vec<String> = Vec::new();
    let ghost mut done: Seq<Seq<char>> = Seq::empty();
    let mut start: usize = 0;
    let mut i: usize = 0;
    while i < n
        invariant
            n == s.len(),
            s == chars@,
            start <= i <= n,
            script_lines(s) == done + lines_from(s, i as int, start as int),
            views_of(tokens@) == done.map_values(|l: Seq<char>| trimmed(l)),
        decreases n - i,
    {
        if chars[i] == '\n' {
            let ghost line = s.subrange(start as int, i as int);
            let ghost rest = lines_from(s, i + 1, i + 1);
            assert(done + (seq![line] + rest) =~= done.push(line) + rest);
            let token = trimmed_string(&chars, start, i);
            let ghost before = tokens@;
            tokens.push(token);
            proof {
                assert(views_of(tokens@) =~= views_of(before).push(trimmed(line)));
                assert(done.push(line).map_values(|l: Seq<char>| trimmed(l)) =~= done.map_values(
                    |l: Seq<char>| trimmed(l),
                ).push(trimmed(line)));
                done = done.push(line);
            }
            start = i + 1;
        }
        i += 1;
    }
    if start < n {
        let ghost line = s.subrange(start as int, n as int);
        assert(done + seq![line] =~= done.push(line));
        let token = trimmed_string(&chars, start, n);
        let ghost before = tokens@;
        tokens.push(token);
        proof {
            assert(views_of(tokens@) =~= views_of(before).push(trimmed(line)));
            assert(done.push(line).map_values(|l: Seq<char>| trimmed(l)) =~= done.map_values(
                |l: Seq<char>| trimmed(l),
            ).push(trimmed(line)));
            done = done.push(line);
        }
    } else {
        assert(done + Seq::<Seq<char>>::empty() =~= done);
    }
    tokens
}

/// Runs the already trimmed `lines` on a machine whose stack a starts as
/// `initial` and whose stack b starts empty, then judges the end state.
pub fn check_lines(initial: Stack, lines: &Vec<String>) -> (r: Result<usize, ExecError>)
    ensures
        verdict(r, initial@, views_of(lines@)),
{
    let ghost a0 = initial@;
    let ghost tokens = views_of(lines@);
    let mut stack_a = initial;
    let mut stack_b = Stack::with_capacity(stack_a.len());
    let mut i: usize = 0;
    assert(tokens.skip(0) =~= tokens);
    while i < lines.len()
        invariant
            i <= lines@.len(),
            tokens == views_of(lines@),
            a0 == initial@,
            run_tokens(a0, Seq::empty(), tokens) == run_tokens(
                stack_a@,
                stack_b@,
                tokens.skip(i as int),
            ),
        decreases lines@.len() - i,
    {
        let chars = chars_of(lines[i].as_str());
        assert(chars@.subrange(0, chars@.len() as int) =~= chars@);
        assert(tokens.skip(i as int)[0] == tokens[i as int]);
        assert(tokens.skip(i as int).drop_first() =~= tokens.skip(i + 1));
        match parse_move_at(&chars, 0, chars.len()) {
            None => {
                return Err(ExecError::BadCommand(lines[i].clone()));
            },
            Some(m) => execute(m, &mut stack_a, &mut stack_b),
        }
        i += 1;
    }
    assert(tokens.skip(i as int) =~= Seq::<Seq<char>>::empty());
    if !stack_b.is_empty() {
        Err(ExecError::StackBNotEmpty)
    } else if !stack_a.is_sorted() {
        Err(ExecError::NotSorted)
    } else {
        Ok(lines.len())
    }
}

/// Runs the script `output` on a machine whose stack a starts as `initial`
/// and whose stack b starts empty, then judges the end state.
///
/// Each line is trimmed of white space. A line that names no move stops the
/// run with `BadCommand`, and what was done is not judged. Otherwise the run
/// fails with `StackBNotEmpty` when b is left non-empty, then with
/// `NotSorted` when a is not strictly ascending, and else returns the number
/// of lines run.
pub fn check(initial: Stack, output: &str) -> (r: Result<usize, ExecError>)
    ensures
        verdict(r, initial@, script_tokens(output@)),
{
    let lines = trimmed_lines(output);
    check_lines(initial, &lines)
}

} // verus!
