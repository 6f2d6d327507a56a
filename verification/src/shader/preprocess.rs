//! Conditional compilation of shader sources: `#ifdef`, `#ifndef`, `#else` and `#endif`.
//!
//! Lines that are left out become empty lines, so the lines that stay keep their numbers.

use crate::shader::ShaderError;
use crate::text;
use vstd::prelude::*;
use vstd::string::*;

verus! {

/// White space, as Unicode defines it.
pub open spec fn is_space(c: char) -> bool {
    ||| '\u{9}' <= c <= '\u{d}'
    ||| c == ' '
    ||| c == '\u{85}'
    ||| c == '\u{a0}'
    ||| c == '\u{1680}'
    ||| '\u{2000}' <= c <= '\u{200a}'
    ||| c == '\u{2028}'
    ||| c == '\u{2029}'
    ||| c == '\u{202f}'
    ||| c == '\u{205f}'
    ||| c == '\u{3000}'
}

fn space(c: char) -> (result: bool)
    ensures
        result == is_space(c),
{
    ('\u{9}' <= c && c <= '\u{d}') || c == ' ' || c == '\u{85}' || c == '\u{a0}' || c == '\u{1680}'
        || ('\u{2000}' <= c && c <= '\u{200a}') || c == '\u{2028}' || c == '\u{2029}' || c
        == '\u{202f}' || c == '\u{205f}' || c == '\u{3000}'
}

/// How far the text is white space, or how far it is not.
pub open spec fn run_length(s: Seq<char>, spaces: bool) -> nat
    decreases s.len(),
{
    if s.len() == 0 || is_space(s[0]) != spaces {
        0
    } else {
        1 + run_length(s.drop_first(), spaces)
    }
}

/// The text from its first character on that is no white space.
pub open spec fn trimmed(s: Seq<char>) -> Seq<char> {
    s.skip(run_length(s, true) as int)
}

/// The first word; empty if there is none.
pub open spec fn first_word(s: Seq<char>) -> Seq<char> {
    trimmed(s).take(run_length(trimmed(s), false) as int)
}

/// What comes behind the first word.
pub open spec fn after_word(s: Seq<char>) -> Seq<char> {
    trimmed(s).skip(run_length(trimmed(s), false) as int)
}

/// How far it is to the first line feed, or to the end.
pub open spec fn line_length(s: Seq<char>) -> nat
    decreases s.len(),
{
    if s.len() == 0 || s[0] == '\n' {
        0
    } else {
        1 + line_length(s.drop_first())
    }
}

/// A line without the carriage return before its line feed.
pub open spec fn bare_line(s: Seq<char>) -> Seq<char> {
    if s.len() > 0 && s.last() == '\r' {
        s.drop_last()
    } else {
        s
    }
}

/// The lines of a text. They end with a line feed, which a carriage return may precede; the last
/// one may also end with the text.
pub open spec fn lines(s: Seq<char>) -> Seq<Seq<char>>
    decreases s.len(),
{
    if s.len() == 0 {
        Seq::empty()
    } else if line_length(s) >= s.len() {
        seq![s]
    } else {
        seq![bare_line(s.take(line_length(s) as int))] + lines(s.skip(line_length(s) as int + 1))
    }
}

/// One open `#ifdef`.
#[derive(Clone, Copy)]
pub struct Frame {
    /// Whether the lines of the branch that it is in are kept.
    pub taken: bool,
    /// Its `#else` was seen.
    pub in_else: bool,
    /// The number of its line.
    pub line: usize,
}

/// Whether a name is switched on.
pub open spec fn defined(defs: Seq<&str>, name: Seq<char>) -> bool {
    exists|i: int| 0 <= i < defs.len() && (#[trigger] defs[i])@ == name
}

/// Every open `#ifdef` keeps its lines.
pub open spec fn all_taken(stack: Seq<Frame>) -> bool {
    forall|i: int| 0 <= i < stack.len() ==> (#[trigger] stack[i]).taken
}

pub open spec fn no_name(number: nat, directive: Seq<char>) -> Seq<char> {
    "第 "@ + text::decimal(number) + " 行：`#"@ + directive + "` 后面没有名字"@
}

pub open spec fn stray_else(number: nat) -> Seq<char> {
    "第 "@ + text::decimal(number) + " 行：`#else` 没有对应的 `#ifdef`"@
}

pub open spec fn second_else(number: nat) -> Seq<char> {
    "第 "@ + text::decimal(number) + " 行：同一个 `#ifdef` 出现了两次 `#else`"@
}

pub open spec fn stray_endif(number: nat) -> Seq<char> {
    "第 "@ + text::decimal(number) + " 行：`#endif` 没有对应的 `#ifdef`"@
}

pub open spec fn unknown_directive(number: nat, directive: Seq<char>) -> Seq<char> {
    "第 "@ + text::decimal(number) + " 行：不认识的预处理指令 `#"@ + directive + "`"@
}

pub open spec fn missing_endif(number: nat) -> Seq<char> {
    "第 "@ + text::decimal(number) + " 行的 `#ifdef` 没有 `#endif`"@
}

/// What a directive makes of the open `#ifdef`s, or what is wrong with it. `words` is what stands
/// behind its `#`.
pub open spec fn directed(
    stack: Seq<Frame>,
    words: Seq<char>,
    number: usize,
    defs: Seq<&str>,
) -> Result<Seq<Frame>, Seq<char>> {
    let directive = first_word(words);
    let name = first_word(after_word(words));
    if directive == "ifdef"@ || directive == "ifndef"@ {
        if name.len() == 0 {
            Err(no_name(number as nat, directive))
        } else {
            Ok(
                stack.push(
                    Frame {
                        taken: defined(defs, name) == (directive == "ifdef"@),
                        in_else: false,
                        line: number,
                    },
                ),
            )
        }
    } else if directive == "else"@ {
        if stack.len() == 0 {
            Err(stray_else(number as nat))
        } else if stack.last().in_else {
            Err(second_else(number as nat))
        } else {
            Ok(
                stack.drop_last().push(
                    Frame { taken: !stack.last().taken, in_else: true, line: stack.last().line },
                ),
            )
        }
    } else if directive == "endif"@ {
        if stack.len() == 0 {
            Err(stray_endif(number as nat))
        } else {
            Ok(stack.drop_last())
        }
    } else {
        Err(unknown_directive(number as nat, directive))
    }
}

/// A line is a directive when its first character that is no white space is a `#`.
pub open spec fn is_directive(line: Seq<char>) -> bool {
    trimmed(line).len() > 0 && trimmed(line)[0] == '#'
}

/// What is left of a line that stands inside the given `#ifdef`s.
pub open spec fn kept(stack: Seq<Frame>, line: Seq<char>) -> Seq<char> {
    if !is_directive(line) && all_taken(stack) {
        line
    } else {
        Seq::empty()
    }
}

/// What the first `n` lines come to: the `#ifdef`s still open and the text so far, or what is
/// wrong.
pub open spec fn processed_to(all: Seq<Seq<char>>, defs: Seq<&str>, n: nat) -> Result<
    (Seq<Frame>, Seq<char>),
    Seq<char>,
>
    decreases n,
{
    if n == 0 {
        Ok((Seq::empty(), Seq::empty()))
    } else {
        match processed_to(all, defs, (n - 1) as nat) {
            Err(message) => Err(message),
            Ok((stack, out)) => {
                let line = all[n - 1];
                let next = if is_directive(line) {
                    directed(stack, trimmed(line).drop_first(), n as usize, defs)
                } else {
                    Ok(stack)
                };
                match next {
                    Err(message) => Err(message),
                    Ok(now) => Ok((now, (out + kept(stack, line)).push('\n'))),
                }
            },
        }
    }
}

/// What a source comes to, or what is wrong with it.
pub open spec fn processed(source: Seq<char>, defs: Seq<&str>) -> Result<Seq<char>, Seq<char>> {
    match processed_to(lines(source), defs, lines(source).len()) {
        Err(message) => Err(message),
        Ok((stack, out)) => if stack.len() == 0 {
            Ok(out)
        } else {
            Err(missing_endif(stack.last().line as nat))
        },
    }
}

fn characters(source: &str) -> (result: Vec<char>)
    ensures
        result@ == source@,
{
    let mut result: Vec<char> = Vec::new();
    for c in it: source.chars()
        invariant
            result@ == source@.take(it.index() as int),
            it.seq() == source@,
    {
        result.push(c);
        assert(source@.take(it.index() as int + 1) =~= source@.take(it.index() as int).push(c));
    }
    assert(source@.take(source@.len() as int) =~= source@);
    result
}

fn piece(chars: &Vec<char>, from: usize, to: usize) -> (result: String)
    requires
        from <= to <= chars@.len(),
    ensures
        result@ == chars@.subrange(from as int, to as int),
{
    let mut result = String::new();
    let mut i: usize = from;
    while i < to
        invariant
            from <= i <= to <= chars@.len(),
            result@ == chars@.subrange(from as int, i as int),
        decreases to - i,
    {
        result.push(chars[i]);
        i += 1;
        assert(chars@.subrange(from as int, i as int) =~= chars@.subrange(
            from as int,
            i - 1,
        ).push(chars@[i - 1]));
    }
    result
}

/// How far a run of white space, or of anything else, goes from `from`.
fn run_end(chars: &Vec<char>, from: usize, to: usize, spaces: bool) -> (result: usize)
    requires
        from <= to <= chars@.len(),
    ensures
        from <= result <= to,
        result - from == run_length(chars@.subrange(from as int, to as int), spaces),
{
    let mut i: usize = from;
    while i < to && space(chars[i]) == spaces
        invariant
            from <= i <= to <= chars@.len(),
            run_length(chars@.subrange(from as int, to as int), spaces) == (i - from) + run_length(
                chars@.subrange(i as int, to as int),
                spaces,
            ),
        decreases to - i,
    {
        assert(chars@.subrange(i as int, to as int).drop_first() =~= chars@.subrange(
            i + 1,
            to as int,
        ));
        i += 1;
    }
    i
}

/// Where the line that begins at `from` ends.
fn line_end(chars: &Vec<char>, from: usize) -> (result: usize)
    requires
        from <= chars@.len(),
    ensures
        from <= result <= chars@.len(),
        result - from == line_length(chars@.skip(from as int)),
        result < chars@.len() ==> chars@[result as int] == '\n',
{
    let mut i: usize = from;
    while i < chars.len() && chars[i] != '\n'
        invariant
            from <= i <= chars@.len(),
            line_length(chars@.skip(from as int)) == (i - from) + line_length(
                chars@.skip(i as int),
            ),
        decreases chars@.len() - i,
    {
        assert(chars@.skip(i as int).drop_first() =~= chars@.skip(i + 1));
        i += 1;
    }
    i
}

fn is_defined(defs: &[&str], name: &String) -> (result: bool)
    ensures
        result == defined(defs@, name@),
{
    let mut i: usize = 0;
    while i < defs.len()
        invariant
            i <= defs@.len(),
            forall|j: int| 0 <= j < i ==> (#[trigger] defs@[j])@ != name@,
        decreases defs@.len() - i,
    {
        if text::same_text(defs[i], name.as_str()) {
            assert(defs@[i as int]@ == name@);
            return true;
        }
        i += 1;
    }
    false
}

fn numbered(number: usize, tail: &str) -> (result: String)
    ensures
        result@ == "第 "@ + text::decimal(number as nat) + tail@,
{
    let mut result = "第 ".to_owned();
    let written = text::number(number as u64);
    result.append(written.as_str());
    result.append(tail);
    result
}

fn quoted(number: usize, front: &str, word: &String, back: &str) -> (result: String)
    ensures
        result@ == "第 "@ + text::decimal(number as nat) + front@ + word@ + back@,
{
    let mut result = numbered(number, front);
    result.append(word.as_str());
    result.append(back);
    result
}

/// Carries out one directive, or says what is wrong with it.
fn direct(
    stack: &mut Vec<Frame>,
    chars: &Vec<char>,
    from: usize,
    to: usize,
    number: usize,
    defs: &[&str],
) -> (result: Result<(), String>)
    requires
        from <= to <= chars@.len(),
    ensures
        match directed(
            old(stack)@,
            chars@.subrange(from as int, to as int),
            number,
            defs@,
        ) {
            Ok(now) => result is Ok && final(stack)@ == now,
            Err(message) => result matches Err(text) && text@ == message,
        },
{
    let ghost words = chars@.subrange(from as int, to as int);
    let word_from: usize = run_end(chars, from, to, true);
    assert(chars@.subrange(word_from as int, to as int) =~= trimmed(words));
    let word_to: usize = run_end(chars, word_from, to, false);
    assert(chars@.subrange(word_from as int, word_to as int) =~= first_word(words));
    assert(chars@.subrange(word_to as int, to as int) =~= after_word(words));
    let name_from: usize = run_end(chars, word_to, to, true);
    assert(chars@.subrange(name_from as int, to as int) =~= trimmed(after_word(words)));
    let name_to: usize = run_end(chars, name_from, to, false);
    assert(chars@.subrange(name_from as int, name_to as int) =~= first_word(after_word(words)));
    let directive = piece(chars, word_from, word_to);
    let ifdef: bool = text::same_text(directive.as_str(), "ifdef");
    if ifdef || text::same_text(directive.as_str(), "ifndef") {
        let name = piece(chars, name_from, name_to);
        if name_from == name_to {
            return Err(quoted(number, " 行：`#", &directive, "` 后面没有名字"));
        }
        let taken: bool = is_defined(defs, &name) == ifdef;
        stack.push(Frame { taken, in_else: false, line: number });
        Ok(())
    } else if text::same_text(directive.as_str(), "else") {
        let ghost before = stack@;
        match stack.pop() {
            None => Err(numbered(number, " 行：`#else` 没有对应的 `#ifdef`")),
            Some(frame) => {
                if frame.in_else {
                    return Err(numbered(number, " 行：同一个 `#ifdef` 出现了两次 `#else`"));
                }
                stack.push(Frame { taken: !frame.taken, in_else: true, line: frame.line });
                assert(before.last() == frame);
                Ok(())
            },
        }
    } else if text::same_text(directive.as_str(), "endif") {
        match stack.pop() {
            None => Err(numbered(number, " 行：`#endif` 没有对应的 `#ifdef`")),
            Some(_) => Ok(()),
        }
    } else {
        Err(quoted(number, " 行：不认识的预处理指令 `#", &directive, "`"))
    }
}

fn keeps(stack: &Vec<Frame>) -> (result: bool)
    ensures
        result == all_taken(stack@),
{
    let mut i: usize = 0;
    while i < stack.len()
        invariant
            i <= stack@.len(),
            forall|j: int| 0 <= j < i ==> (#[trigger] stack@[j]).taken,
        decreases stack@.len() - i,
    {
        if !stack[i].taken {
            assert(!stack@[i as int].taken);
            return false;
        }
        i += 1;
    }
    true
}

/// Keeps the lines whose `#ifdef`s hold for the names in `defs`. Every line of the source gives
/// one line of the result: itself, or an empty line.
pub fn preprocess(source: &str, defs: &[&str]) -> (result: Result<String, ShaderError>)
    ensures
        match processed(source@, defs@) {
            Ok(out) => result matches Ok(text) && text@ == out,
            Err(message) => result matches Err(ShaderError::Preprocess(text)) && text@ == message,
        },
{
    let chars = characters(source);
    let ghost all = lines(source@);
    let mut out = String::new();
    let mut stack: Vec<Frame> = Vec::new();
    let mut at: usize = 0;
    let mut number: usize = 0;
    assert(chars@.skip(0) =~= chars@);
    assert(all.skip(0) =~= all);
    while at < chars.len()
        invariant
            chars@ == source@,
            all == lines(source@),
            at <= chars@.len(),
            number <= at,
            number <= all.len(),
            all.skip(number as int) == lines(chars@.skip(at as int)),
            processed_to(all, defs@, number as nat) == Ok::<(Seq<Frame>, Seq<char>), Seq<char>>(
                (stack@, out@),
            ),
        decreases chars@.len() - at,
    {
        let ghost rest = chars@.skip(at as int);
        let end: usize = line_end(&chars, at);
        let to: usize = if end < chars.len() && end > at && chars[end - 1] == '\r' {
            end - 1
        } else {
            end
        };
        let ghost line = chars@.subrange(at as int, to as int);
        proof {
            if end < chars@.len() {
                assert(rest.take(end - at) =~= chars@.subrange(at as int, end as int));
                assert(bare_line(rest.take(end - at)) =~= line);
                assert(rest.skip(end - at + 1) =~= chars@.skip(end + 1));
                assert(lines(rest) == seq![line] + lines(chars@.skip(end + 1)));
                assert(lines(rest).skip(1) =~= lines(chars@.skip(end + 1)));
            } else {
                assert(line =~= rest);
                assert(lines(rest) == seq![line]);
                assert(lines(rest).skip(1) =~= Seq::<Seq<char>>::empty());
                assert(chars@.skip(chars@.len() as int) =~= Seq::<char>::empty());
            }
            assert(lines(rest)[0] == line);
            assert(all.skip(number as int).len() > 0);
            assert(all[number as int] == all.skip(number as int)[0]);
            assert(all.skip(number + 1) =~= all.skip(number as int).skip(1));
        }
        number += 1;
        let first: usize = run_end(&chars, at, to, true);
        assert(chars@.subrange(first as int, to as int) =~= trimmed(line));
        if first < to && chars[first] == '#' {
            assert(is_directive(line));
            assert(chars@.subrange(first + 1, to as int) =~= trimmed(line).drop_first());
            let ghost before = stack@;
            match direct(&mut stack, &chars, first + 1, to, number, defs) {
                Ok(()) => {},
                Err(message) => {
                    proof {
                        lemma_stays_wrong(all, defs@, number as nat, all.len());
                    }
                    return Err(ShaderError::Preprocess(message));
                },
            }
            assert(out@ + kept(before, line) =~= out@);
            out.push('\n');
        } else {
            assert(!is_directive(line));
            if keeps(&stack) {
                let copy = piece(&chars, at, to);
                out.append(copy.as_str());
            } else {
                assert(out@ + kept(stack@, line) =~= out@);
            }
            out.push('\n');
        }
        at = if end < chars.len() {
            end + 1
        } else {
            end
        };
    }
    proof {
        assert(chars@.skip(at as int) =~= Seq::<char>::empty());
        assert(all.skip(number as int).len() == 0);
    }
    if stack.len() > 0 {
        let open: usize = stack[stack.len() - 1].line;
        return Err(ShaderError::Preprocess(numbered(open, " 行的 `#ifdef` 没有 `#endif`")));
    }
    Ok(out)
}

/// What is wrong with the beginning of a source is wrong with the source.
proof fn lemma_stays_wrong(all: Seq<Seq<char>>, defs: Seq<&str>, n: nat, m: nat)
    requires
        processed_to(all, defs, n) is Err,
        n <= m,
    ensures
        processed_to(all, defs, m) == processed_to(all, defs, n),
    decreases m,
{
    if n < m {
        lemma_stays_wrong(all, defs, n, (m - 1) as nat);
    }
}

/// There is no line feed in a text.
spec fn one_line(s: Seq<char>) -> bool {
    forall|i: int| 0 <= i < s.len() ==> s[i] != '\n'
}

/// A text is made of whole lines.
spec fn whole_lines(s: Seq<char>) -> bool {
    s.len() == 0 || s.last() == '\n'
}

proof fn lemma_line_length(s: Seq<char>)
    ensures
        line_length(s) <= s.len(),
        line_length(s) < s.len() ==> s[line_length(s) as int] == '\n',
        one_line(s.take(line_length(s) as int)),
    decreases s.len(),
{
    if s.len() > 0 && s[0] != '\n' {
        lemma_line_length(s.drop_first());
        let rest = s.drop_first();
        let n = line_length(rest) as int;
        let head = s.take(n + 1);
        assert(line_length(s) == n + 1);
        assert forall|i: int| 0 <= i < head.len() implies head[i] != '\n' by {
            if i > 0 {
                assert(rest.take(n)[i - 1] != '\n');
            }
        }
    }
}

proof fn lemma_line_length_is(s: Seq<char>, n: int)
    requires
        0 <= n < s.len(),
        s[n] == '\n',
        one_line(s.take(n)),
    ensures
        line_length(s) == n,
    decreases s.len(),
{
    if n > 0 {
        assert(s.take(n)[0] != '\n');
        let rest = s.drop_first();
        let head = rest.take(n - 1);
        assert forall|i: int| 0 <= i < head.len() implies head[i] != '\n' by {
            assert(s.take(n)[i + 1] != '\n');
        }
        lemma_line_length_is(rest, n - 1);
    }
}

proof fn lemma_lines_are_one_line(s: Seq<char>, i: int)
    requires
        0 <= i < lines(s).len(),
    ensures
        one_line(lines(s)[i]),
    decreases s.len(),
{
    lemma_line_length(s);
    let n = line_length(s) as int;
    if n < s.len() {
        let head = seq![bare_line(s.take(n))];
        assert(lines(s) == head + lines(s.skip(n + 1)));
        if i == 0 {
            let first = lines(s)[0];
            assert(first == bare_line(s.take(n)));
            assert forall|k: int| 0 <= k < first.len() implies first[k] != '\n' by {
                assert(s.take(n)[k] != '\n');
            }
        } else {
            lemma_lines_are_one_line(s.skip(n + 1), i - 1);
            assert(lines(s)[i] == lines(s.skip(n + 1))[i - 1]);
        }
    } else {
        assert(s.take(n) =~= s);
    }
}

/// The lines of two texts, one behind the other, are the lines of the one and then of the other.
proof fn lemma_lines_append(a: Seq<char>, b: Seq<char>)
    requires
        whole_lines(a),
    ensures
        lines(a + b) == lines(a) + lines(b),
    decreases a.len(),
{
    if a.len() == 0 {
        assert(a + b =~= b);
        assert(lines(a) + lines(b) =~= lines(b));
    } else {
        lemma_line_length(a);
        let n = line_length(a) as int;
        assert(n < a.len()) by {
            if n >= a.len() {
                assert(a.take(n) =~= a);
                assert(a[a.len() - 1] != '\n');
            }
        }
        assert((a + b).take(n) =~= a.take(n));
        lemma_line_length_is(a + b, n);
        let rest = a.skip(n + 1);
        assert((a + b).skip(n + 1) =~= rest + b);
        if rest.len() > 0 {
            assert(rest.last() == a.last());
        }
        lemma_lines_append(rest, b);
        let head = seq![bare_line(a.take(n))];
        assert(lines(a) == head + lines(rest));
        assert(lines(a + b) == head + lines(rest + b));
        assert(head + (lines(rest) + lines(b)) =~= (head + lines(rest)) + lines(b));
    }
}

proof fn lemma_one_more_line(out: Seq<char>, line: Seq<char>)
    requires
        whole_lines(out),
        one_line(line),
    ensures
        whole_lines((out + line).push('\n')),
        lines((out + line).push('\n')) == lines(out).push(bare_line(line)),
{
    let tail = line.push('\n');
    assert((out + line).push('\n') =~= out + tail);
    lemma_lines_append(out, tail);
    assert(tail.take(line.len() as int) =~= line);
    lemma_line_length_is(tail, line.len() as int);
    assert(tail.skip(line.len() as int + 1) =~= Seq::<char>::empty());
    assert(lines(Seq::<char>::empty()) =~= Seq::<Seq<char>>::empty());
    assert(lines(tail) == seq![bare_line(line)] + lines(tail.skip(line.len() as int + 1)));
    assert(lines(tail) =~= seq![bare_line(line)]);
    assert(lines(out) + seq![bare_line(line)] =~= lines(out).push(bare_line(line)));
}

proof fn lemma_lines_so_far(all: Seq<Seq<char>>, defs: Seq<&str>, n: nat)
    requires
        n <= all.len(),
        forall|i: int| 0 <= i < all.len() ==> one_line(#[trigger] all[i]),
        processed_to(all, defs, n) is Ok,
    ensures
        ({
            let out = processed_to(all, defs, n)->Ok_0.1;
            &&& whole_lines(out)
            &&& lines(out).len() == n
            &&& forall|i: int|
                0 <= i < n ==> (#[trigger] lines(out)[i]) == bare_line(all[i]) || lines(
                    out,
                )[i].len() == 0
        }),
    decreases n,
{
    if n > 0 {
        lemma_lines_so_far(all, defs, (n - 1) as nat);
        let (stack, out) = processed_to(all, defs, (n - 1) as nat)->Ok_0;
        let line = all[n - 1];
        let left = kept(stack, line);
        assert(one_line(left));
        lemma_one_more_line(out, left);
        let now = processed_to(all, defs, n)->Ok_0.1;
        assert(now == (out + left).push('\n'));
        assert forall|i: int| 0 <= i < n implies (#[trigger] lines(now)[i]) == bare_line(all[i])
            || lines(now)[i].len() == 0 by {
            if i < n - 1 {
                assert(lines(now)[i] == lines(out)[i]);
            }
        }
    }
}

/// Every line keeps its number: the result has as many lines as the source, and each of them is the
/// one of the source or empty. So the compiler's messages point at the right line.
pub proof fn lemma_lines_keep_their_numbers(source: Seq<char>, defs: Seq<&str>)
    requires
        processed(source, defs) is Ok,
    ensures
        lines(processed(source, defs)->Ok_0).len() == lines(source).len(),
        forall|i: int|
            0 <= i < lines(source).len() ==> (#[trigger] lines(processed(source, defs)->Ok_0)[i])
                == bare_line(lines(source)[i]) || lines(processed(source, defs)->Ok_0)[i].len() == 0,
{
    let all = lines(source);
    assert forall|i: int| 0 <= i < all.len() implies one_line(#[trigger] all[i]) by {
        lemma_lines_are_one_line(source, i);
    }
    lemma_lines_so_far(all, defs, all.len());
}

proof fn lemma_plain_so_far(all: Seq<Seq<char>>, defs: Seq<&str>, n: nat)
    requires
        n <= all.len(),
        forall|i: int| 0 <= i < all.len() ==> one_line(#[trigger] all[i]) && !is_directive(all[i]),
    ensures
        processed_to(all, defs, n) matches Ok((stack, out)) && {
            &&& stack.len() == 0
            &&& whole_lines(out)
            &&& lines(out).len() == n
            &&& forall|i: int| 0 <= i < n ==> (#[trigger] lines(out)[i]) == bare_line(all[i])
        },
    decreases n,
{
    if n > 0 {
        lemma_plain_so_far(all, defs, (n - 1) as nat);
        let (stack, out) = processed_to(all, defs, (n - 1) as nat)->Ok_0;
        let line = all[n - 1];
        assert(all_taken(stack));
        assert(kept(stack, line) == line);
        lemma_one_more_line(out, line);
        let now = (out + line).push('\n');
        assert forall|i: int| 0 <= i < n implies (#[trigger] lines(now)[i]) == bare_line(all[i]) by {
            if i < n - 1 {
                assert(lines(now)[i] == lines(out)[i]);
            }
        }
    }
}

/// A source without directives stays as it is, line by line, whatever names are switched on.
pub proof fn lemma_plain_source_is_untouched(source: Seq<char>, defs: Seq<&str>)
    requires
        forall|i: int| 0 <= i < lines(source).len() ==> !is_directive(#[trigger] lines(source)[i]),
    ensures
        processed(source, defs) matches Ok(out) && {
            &&& lines(out).len() == lines(source).len()
            &&& forall|i: int|
                0 <= i < lines(source).len() ==> (#[trigger] lines(out)[i]) == bare_line(
                    lines(source)[i],
                )
        },
{
    let all = lines(source);
    assert forall|i: int| 0 <= i < all.len() implies one_line(#[trigger] all[i]) && !is_directive(
        all[i],
    ) by {
        lemma_lines_are_one_line(source, i);
    }
    lemma_plain_so_far(all, defs, all.len());
}

/// `#ifdef` and `#ifndef` of one name are mirror images, and so are the two sides of an `#else`:
/// exactly one of them is kept.
pub proof fn lemma_exactly_one_side(
    stack: Seq<Frame>,
    with: Seq<char>,
    without: Seq<char>,
    otherwise: Seq<char>,
    number: usize,
    defs: Seq<&str>,
)
    requires
        first_word(with) == "ifdef"@,
        first_word(without) == "ifndef"@,
        first_word(otherwise) == "else"@,
        first_word(after_word(with)) == first_word(after_word(without)),
        first_word(after_word(with)).len() > 0,
    ensures
        ({
            let opened = directed(stack, with, number, defs);
            let mirrored = directed(stack, without, number, defs);
            &&& opened is Ok && mirrored is Ok
            &&& opened->Ok_0.last().taken == !mirrored->Ok_0.last().taken
            &&& directed(opened->Ok_0, otherwise, number, defs) matches Ok(turned)
                && turned.last().taken == !opened->Ok_0.last().taken
        }),
{
    reveal_strlit("ifdef");
    reveal_strlit("ifndef");
    reveal_strlit("else");
    assert("ifdef"@.len() != "ifndef"@.len());
    assert("else"@.len() != "ifndef"@.len());
    assert("else"@.len() != "ifdef"@.len());
}

/// Two lists of open `#ifdef`s that differ at most in what they keep.
spec fn same_shape(a: Seq<Frame>, b: Seq<Frame>) -> bool {
    &&& a.len() == b.len()
    &&& forall|i: int|
        0 <= i < a.len() ==> (#[trigger] a[i]).in_else == b[i].in_else && a[i].line == b[i].line
}

proof fn lemma_names_do_not_matter_so_far(
    all: Seq<Seq<char>>,
    some: Seq<&str>,
    others: Seq<&str>,
    n: nat,
)
    ensures
        match (processed_to(all, some, n), processed_to(all, others, n)) {
            (Ok((a, _)), Ok((b, _))) => same_shape(a, b),
            (Err(a), Err(b)) => a == b,
            _ => false,
        },
    decreases n,
{
    if n > 0 {
        lemma_names_do_not_matter_so_far(all, some, others, (n - 1) as nat);
    }
}

/// Whether the directives of a source are well formed, and what is wrong with them if they are not,
/// does not depend on the names that are switched on: a bad directive in a branch that is dropped is
/// refused too.
pub proof fn lemma_names_do_not_matter(source: Seq<char>, some: Seq<&str>, others: Seq<&str>)
    ensures
        processed(source, some) is Err == processed(source, others) is Err,
        processed(source, some) is Err ==> processed(source, some) == processed(source, others),
{
    lemma_names_do_not_matter_so_far(lines(source), some, others, lines(source).len());
}

/// Lines one behind the other, each with a line feed.
pub open spec fn joined(all: Seq<Seq<char>>) -> Seq<char>
    decreases all.len(),
{
    if all.len() == 0 {
        Seq::empty()
    } else {
        (joined(all.drop_last()) + all.last()).push('\n')
    }
}

/// There is no carriage return in a text.
spec fn no_return(s: Seq<char>) -> bool {
    forall|i: int| 0 <= i < s.len() ==> s[i] != '\r'
}

proof fn lemma_lines_have_no_return(s: Seq<char>, i: int)
    requires
        no_return(s),
        0 <= i < lines(s).len(),
    ensures
        no_return(lines(s)[i]),
    decreases s.len(),
{
    lemma_line_length(s);
    let n = line_length(s) as int;
    if n < s.len() {
        let rest = s.skip(n + 1);
        assert(lines(s) == seq![bare_line(s.take(n))] + lines(rest));
        if i == 0 {
            let first = lines(s)[0];
            assert forall|k: int| 0 <= k < first.len() implies first[k] != '\r' by {
                assert(first[k] == s[k]);
            }
        } else {
            assert forall|k: int| 0 <= k < rest.len() implies rest[k] != '\r' by {
                assert(rest[k] == s[k + n + 1]);
            }
            lemma_lines_have_no_return(rest, i - 1);
            assert(lines(s)[i] == lines(rest)[i - 1]);
        }
    }
}

/// What is left of lines without carriage returns has no directives, and is its lines one behind the
/// other.
proof fn lemma_left_so_far(all: Seq<Seq<char>>, defs: Seq<&str>, n: nat)
    requires
        n <= all.len(),
        forall|i: int| 0 <= i < all.len() ==> one_line(#[trigger] all[i]) && no_return(all[i]),
        processed_to(all, defs, n) is Ok,
    ensures
        ({
            let out = processed_to(all, defs, n)->Ok_0.1;
            &&& whole_lines(out)
            &&& out == joined(lines(out))
            &&& forall|i: int| 0 <= i < lines(out).len() ==> !is_directive(#[trigger] lines(out)[i])
        }),
    decreases n,
{
    if n > 0 {
        lemma_left_so_far(all, defs, (n - 1) as nat);
        let (stack, out) = processed_to(all, defs, (n - 1) as nat)->Ok_0;
        let left = kept(stack, all[n - 1]);
        assert(one_line(left) && no_return(left));
        assert(!is_directive(left));
        assert(bare_line(left) == left);
        lemma_one_more_line(out, left);
        let now = (out + left).push('\n');
        assert(lines(now).drop_last() =~= lines(out));
        assert(joined(lines(now)) == now);
        assert forall|i: int| 0 <= i < lines(now).len() implies !is_directive(
            #[trigger] lines(now)[i],
        ) by {
            if i < lines(out).len() {
                assert(lines(now)[i] == lines(out)[i]);
            }
        }
    }
}

proof fn lemma_plain_is_joined(all: Seq<Seq<char>>, defs: Seq<&str>, n: nat)
    requires
        n <= all.len(),
        forall|i: int| 0 <= i < all.len() ==> !is_directive(#[trigger] all[i]),
    ensures
        processed_to(all, defs, n) matches Ok((stack, out)) && stack.len() == 0 && out == joined(
            all.take(n as int),
        ),
    decreases n,
{
    if n > 0 {
        lemma_plain_is_joined(all, defs, (n - 1) as nat);
        let (stack, out) = processed_to(all, defs, (n - 1) as nat)->Ok_0;
        assert(!is_directive(all[n - 1]));
        assert(all_taken(stack));
        assert(all.take(n as int).drop_last() =~= all.take(n - 1));
    } else {
        assert(all.take(0) =~= Seq::empty());
    }
}

/// No directive is ever left over, so a second pass changes nothing, whatever names are switched on
/// for it. Of a source with carriage returns this does not hold: a pass takes one of them from the
/// end of a line.
pub proof fn lemma_second_pass_changes_nothing(
    source: Seq<char>,
    first: Seq<&str>,
    second: Seq<&str>,
)
    requires
        !source.contains('\r'),
        processed(source, first) is Ok,
    ensures
        processed(processed(source, first)->Ok_0, second) == Ok::<Seq<char>, Seq<char>>(
            processed(source, first)->Ok_0,
        ),
{
    let all = lines(source);
    assert(no_return(source));
    assert forall|i: int| 0 <= i < all.len() implies one_line(#[trigger] all[i]) && no_return(
        all[i],
    ) by {
        lemma_lines_are_one_line(source, i);
        lemma_lines_have_no_return(source, i);
    }
    lemma_left_so_far(all, first, all.len());
    let out = processed(source, first)->Ok_0;
    lemma_plain_is_joined(lines(out), second, lines(out).len());
    assert(lines(out).take(lines(out).len() as int) =~= lines(out));
}

proof fn lemma_run(s: Seq<char>, spaces: bool)
    ensures
        run_length(s, spaces) <= s.len(),
        forall|i: int| 0 <= i < run_length(s, spaces) ==> is_space(#[trigger] s[i]) == spaces,
        run_length(s, spaces) < s.len() ==> is_space(s[run_length(s, spaces) as int]) != spaces,
    decreases s.len(),
{
    if s.len() > 0 && is_space(s[0]) == spaces {
        let rest = s.drop_first();
        lemma_run(rest, spaces);
        assert forall|i: int| 0 <= i < run_length(s, spaces) implies is_space(#[trigger] s[i])
            == spaces by {
            if i > 0 {
                assert(rest[i - 1] == s[i]);
            }
        }
        let n = run_length(s, spaces) as int;
        if n < s.len() {
            assert(rest[n - 1] == s[n]);
        }
    }
}

/// A text is white space, its first word, and what comes behind: the word holds no white space, and
/// is empty only where there is nothing but white space; what comes behind is empty or begins with
/// white space.
pub proof fn lemma_words_are_parted_by_space(s: Seq<char>)
    ensures
        s == s.take(s.len() - trimmed(s).len()) + first_word(s) + after_word(s),
        forall|i: int| 0 <= i < s.len() - trimmed(s).len() ==> is_space(#[trigger] s[i]),
        forall|i: int| 0 <= i < first_word(s).len() ==> !is_space(#[trigger] first_word(s)[i]),
        first_word(s).len() == 0 ==> after_word(s).len() == 0,
        after_word(s).len() > 0 ==> is_space(after_word(s)[0]),
        trimmed(s).len() > 0 ==> !is_space(trimmed(s)[0]),
        trimmed(s) == first_word(s) + after_word(s),
{
    lemma_run(s, true);
    lemma_run(trimmed(s), false);
    let t = trimmed(s);
    let n = run_length(s, true) as int;
    let m = run_length(t, false) as int;
    assert(t =~= first_word(s) + after_word(s));
    assert(s.len() - t.len() == n);
    assert(s =~= s.take(n) + t);
    assert(s =~= s.take(n) + first_word(s) + after_word(s));
    assert forall|i: int| 0 <= i < first_word(s).len() implies !is_space(
        #[trigger] first_word(s)[i],
    ) by {
        assert(first_word(s)[i] == t[i]);
    }
    if t.len() > 0 {
        assert(t[0] == s[n]);
    }
    if after_word(s).len() > 0 {
        assert(after_word(s)[0] == t[m]);
    }
}

/// Blanks, tabs and ends of lines are white space; letters, digits, `#` and `_` are not.
pub proof fn lemma_what_is_space(c: char)
    ensures
        c == ' ' || c == '\t' || c == '\n' || c == '\r' ==> is_space(c),
        'a' <= c <= 'z' || 'A' <= c <= 'Z' || '0' <= c <= '9' || c == '#' || c == '_'
            ==> !is_space(c),
{
}

/// An `#ifdef` keeps its lines exactly if its name is switched on, an `#ifndef` exactly if it is not;
/// both need a name. What is open around it stays as it is.
pub proof fn lemma_condition_decides(
    stack: Seq<Frame>,
    words: Seq<char>,
    number: usize,
    defs: Seq<&str>,
)
    requires
        first_word(words) == "ifdef"@ || first_word(words) == "ifndef"@,
    ensures
        ({
            let name = first_word(after_word(words));
            let on = exists|i: int| 0 <= i < defs.len() && (#[trigger] defs[i])@ == name;
            &&& name.len() > 0 <==> directed(stack, words, number, defs) is Ok
            &&& directed(stack, words, number, defs) matches Ok(now) ==> {
                &&& now.len() == stack.len() + 1
                &&& now.drop_last() == stack
                &&& !now.last().in_else
                &&& now.last().line == number
                &&& first_word(words) == "ifdef"@ ==> now.last().taken == on
                &&& first_word(words) == "ifndef"@ ==> now.last().taken == !on
            }
        }),
{
    reveal_strlit("ifdef");
    reveal_strlit("ifndef");
    assert("ifdef"@.len() != "ifndef"@.len());
    if directed(stack, words, number, defs) is Ok {
        assert(directed(stack, words, number, defs)->Ok_0.drop_last() =~= stack);
    }
}

/// An `#else` turns the innermost open condition over, once, and an `#endif` closes it; both need one
/// that is open. What is open around it stays as it is, and so does the line it is reported by. Any
/// other directive is refused.
pub proof fn lemma_condition_is_closed(
    stack: Seq<Frame>,
    words: Seq<char>,
    number: usize,
    defs: Seq<&str>,
)
    ensures
        first_word(words) == "else"@ ==> {
            &&& directed(stack, words, number, defs) is Ok <==> stack.len() > 0
                && !stack.last().in_else
            &&& directed(stack, words, number, defs) matches Ok(now) ==> {
                &&& now.len() == stack.len()
                &&& now.drop_last() == stack.drop_last()
                &&& now.last().taken == !stack.last().taken
                &&& now.last().in_else
                &&& now.last().line == stack.last().line
            }
        },
        first_word(words) == "endif"@ ==> {
            &&& directed(stack, words, number, defs) is Ok <==> stack.len() > 0
            &&& directed(stack, words, number, defs) matches Ok(now) ==> now == stack.drop_last()
        },
        first_word(words) != "ifdef"@ && first_word(words) != "ifndef"@ && first_word(words)
            != "else"@ && first_word(words) != "endif"@ ==> directed(stack, words, number, defs)
            is Err,
{
    reveal_strlit("ifdef");
    reveal_strlit("ifndef");
    reveal_strlit("else");
    reveal_strlit("endif");
    assert("else"@.len() == 4 && "endif"@.len() == 5 && "ifdef"@.len() == 5 && "ifndef"@.len() == 6);
    assert("endif"@[0] == 'e' && "ifdef"@[0] == 'i');
    if first_word(words) == "else"@ && directed(stack, words, number, defs) is Ok {
        assert(directed(stack, words, number, defs)->Ok_0.drop_last() =~= stack.drop_last());
    }
}

/// What is wrong is said with the number of the line that is wrong: that of the directive, or that of
/// the condition that is never closed.
pub proof fn lemma_faults_name_their_line(
    stack: Seq<Frame>,
    words: Seq<char>,
    number: usize,
    defs: Seq<&str>,
)
    ensures
        directed(stack, words, number, defs) matches Err(message) ==> {
            let start = "第 "@ + text::decimal(number as nat);
            message.len() > start.len() && message.take(start.len() as int) == start
        },
{
    reveal_strlit(" 行：`#");
    reveal_strlit(" 行：`#else` 没有对应的 `#ifdef`");
    reveal_strlit(" 行：同一个 `#ifdef` 出现了两次 `#else`");
    reveal_strlit(" 行：`#endif` 没有对应的 `#ifdef`");
    reveal_strlit(" 行：不认识的预处理指令 `#");
    if let Err(message) = directed(stack, words, number, defs) {
        let start = "第 "@ + text::decimal(number as nat);
        assert(message.take(start.len() as int) =~= start);
    }
}

/// Line by line: a directive becomes an empty line; any other line stays exactly if all conditions
/// that are open around it keep their lines, and becomes an empty line if one of them does not.
pub proof fn lemma_line_is_kept_or_emptied(all: Seq<Seq<char>>, defs: Seq<&str>, n: nat)
    requires
        0 < n <= all.len(),
        processed_to(all, defs, n) is Ok,
    ensures
        processed_to(all, defs, (n - 1) as nat) is Ok,
        ({
            let (stack, out) = processed_to(all, defs, (n - 1) as nat)->Ok_0;
            let (now, longer) = processed_to(all, defs, n)->Ok_0;
            let line = all[n - 1];
            let all_keep = forall|i: int| 0 <= i < stack.len() ==> (#[trigger] stack[i]).taken;
            &&& is_directive(line) ==> longer == out.push('\n') && directed(
                stack,
                trimmed(line).drop_first(),
                n as usize,
                defs,
            ) == Ok::<Seq<Frame>, Seq<char>>(now)
            &&& !is_directive(line) ==> now == stack
            &&& !is_directive(line) && all_keep ==> longer == (out + line).push('\n')
            &&& !is_directive(line) && !all_keep ==> longer == out.push('\n')
        }),
{
    let (stack, out) = processed_to(all, defs, (n - 1) as nat)->Ok_0;
    assert(out + Seq::<char>::empty() =~= out);
}

/// A source comes to what its lines come to, provided that every condition is closed at its end.
pub proof fn lemma_source_is_its_lines(source: Seq<char>, defs: Seq<&str>)
    ensures
        processed(source, defs) is Ok <==> (processed_to(lines(source), defs, lines(source).len())
            is Ok && processed_to(lines(source), defs, lines(source).len())->Ok_0.0.len() == 0),
        processed(source, defs) matches Ok(out) ==> out == processed_to(
            lines(source),
            defs,
            lines(source).len(),
        )->Ok_0.1,
{
}

proof fn lemma_joined_front(first: Seq<char>, rest: Seq<Seq<char>>)
    ensures
        joined(seq![first] + rest) == first.push('\n') + joined(rest),
    decreases rest.len(),
{
    let all = seq![first] + rest;
    if rest.len() == 0 {
        assert(all =~= seq![first]);
        assert(all.drop_last() =~= Seq::<Seq<char>>::empty());
        assert(joined(all.drop_last()) =~= Seq::<char>::empty());
        assert(joined(all) =~= first.push('\n') + joined(rest));
    } else {
        lemma_joined_front(first, rest.drop_last());
        assert(all.drop_last() =~= seq![first] + rest.drop_last());
        assert(all.last() == rest.last());
        assert(joined(all) =~= first.push('\n') + joined(rest));
    }
}

/// The lines of a text that ends with a line feed and has no carriage returns are the text: put one
/// behind the other they give it back.
pub proof fn lemma_lines_give_the_text_back(s: Seq<char>)
    requires
        !s.contains('\r'),
        s.len() == 0 || s.last() == '\n',
    ensures
        joined(lines(s)) == s,
    decreases s.len(),
{
    if s.len() > 0 {
        lemma_line_length(s);
        let n = line_length(s) as int;
        assert(n < s.len()) by {
            if n >= s.len() {
                assert(s[s.len() - 1] == '\n');
                assert(s.take(n)[n - 1] != '\n');
            }
        }
        let first = s.take(n);
        let rest = s.skip(n + 1);
        assert(s[n] == '\n');
        assert(bare_line(first) == first) by {
            if first.len() > 0 && first.last() == '\r' {
                assert(s[n - 1] == '\r');
            }
        }
        assert(!rest.contains('\r')) by {
            if rest.contains('\r') {
                let i = choose|i: int| 0 <= i < rest.len() && rest[i] == '\r';
                assert(s[i + n + 1] == '\r');
            }
        }
        if rest.len() > 0 {
            assert(rest.last() == s.last());
        }
        lemma_lines_give_the_text_back(rest);
        lemma_joined_front(first, lines(rest));
        assert(s =~= first.push('\n') + rest);
    }
}

} // verus!
