use vstd::prelude::*;
use vstd::string::StringExecFns;
use crate::error::LauncherError;
use crate::text::{chars_of, is_whitespace, is_ws, owned, push_char, views};

verus! {

broadcast use vstd::string::group_string_axioms;

/// What the placeholders of a desktop `Exec` line expand to.
#[derive(Clone, Debug, PartialEq, Eq)]
pub struct ExecContext<'a> {
    pub name: &'a str,
    pub icon: Option<&'a str>,
    pub desktop_path: &'a str,
}

/// A program and its arguments.
#[derive(Clone, Debug, PartialEq, Eq)]
pub struct CommandLine {
    pub program: String,
    pub args: Vec<String>,
}

/// The program followed by its arguments.
pub open spec fn command_words(c: CommandLine) -> Seq<Seq<char>> {
    seq![c.program@] + views(c.args@)
}

impl CommandLine {
    /// The program followed by its arguments.
    pub fn as_vec(&self) -> (values: Vec<String>)
        ensures
            views(values@) == command_words(*self),
    {
        let mut values: Vec<String> = Vec::new();
        values.push(self.program.clone());
        assert(views(values@) == seq![self.program@]);
        let mut i: usize = 0;
        while i < self.args.len()
            invariant
                i <= self.args@.len(),
                views(values@) == seq![self.program@] + views(self.args@).take(i as int),
            decreases self.args.len() - i,
        {
            let ghost before = values@;
            values.push(self.args[i].clone());
            assert(views(values@) == views(before).push(self.args@[i as int]@));
            assert(views(self.args@).take(i + 1) == views(self.args@).take(i as int).push(
                self.args@[i as int]@,
            ));
            i = i + 1;
        }
        assert(views(self.args@).take(self.args@.len() as int) == views(self.args@));
        values
    }
}

// ---------------------------------------------------------------------------
// Splitting an Exec line into words
// ---------------------------------------------------------------------------

/// The state of the word splitter after a prefix of an Exec line.
pub struct SplitState {
    pub tokens: Seq<Seq<char>>,
    pub current: Seq<char>,
    pub single: bool,
    pub double: bool,
    pub escaped: bool,
}

pub open spec fn split_start() -> SplitState {
    SplitState { tokens: seq![], current: seq![], single: false, double: false, escaped: false }
}

/// One character of the word splitter: quotes group, a backslash outside
/// single quotes takes the next character literally, and whitespace outside
/// quotes ends a word.
pub open spec fn split_step(st: SplitState, c: char) -> SplitState {
    if st.escaped {
        SplitState { current: st.current.push(c), escaped: false, ..st }
    } else if c == '\'' && !st.double {
        SplitState { single: !st.single, ..st }
    } else if c == '"' && !st.single {
        SplitState { double: !st.double, ..st }
    } else if c == '\\' && !st.single {
        SplitState { escaped: true, ..st }
    } else if is_ws(c) && !st.single && !st.double {
        if st.current.len() > 0 {
            SplitState { tokens: st.tokens.push(st.current), current: seq![], ..st }
        } else {
            st
        }
    } else {
        SplitState { current: st.current.push(c), ..st }
    }
}

pub open spec fn split_run(s: Seq<char>) -> SplitState
    decreases s.len(),
{
    if s.len() == 0 {
        split_start()
    } else {
        split_step(split_run(s.drop_last()), s.last())
    }
}

/// The words of an Exec line, or `None` when a quote is left open. A
/// backslash at the very end stands for itself.
pub open spec fn split_words(s: Seq<char>) -> Option<Seq<Seq<char>>> {
    let st = split_run(s);
    if st.single || st.double {
        None
    } else {
        let cur = if st.escaped {
            st.current.push('\\')
        } else {
            st.current
        };
        Some(
            if cur.len() > 0 {
                st.tokens.push(cur)
            } else {
                st.tokens
            },
        )
    }
}

/// `e` is an `ExecLine` error about `line` for `reason`.
pub open spec fn is_exec_line_error(e: LauncherError, line: Seq<char>, reason: Seq<char>) -> bool {
    e matches LauncherError::ExecLine { exec_line, reason: r } && exec_line@ == line && r@ == reason
}

fn exec_line_error(line: &str, reason: &str) -> (e: LauncherError)
    ensures
        is_exec_line_error(e, line@, reason@),
{
    LauncherError::ExecLine { exec_line: owned(line), reason: owned(reason) }
}

fn tokenize(exec: &str) -> (r: Result<Vec<String>, LauncherError>)
    ensures
        match split_words(exec@) {
            Some(words) => r matches Ok(tokens) && views(tokens@) == words,
            None => r matches Err(e) && is_exec_line_error(e, exec@, "unterminated quote"@),
        },
        plain_text(exec@) ==> (r matches Ok(tokens) && views(tokens@) == whitespace_words(exec@)),
{
    proof {
        if plain_text(exec@) {
            law_plain_exec_splits_on_whitespace(exec@);
        }
    }
    let chars = chars_of(exec);
    let mut tokens: Vec<String> = Vec::new();
    let mut current = String::new();
    let mut single_quote = false;
    let mut double_quote = false;
    let mut escaped = false;
    let mut i: usize = 0;
    while i < chars.len()
        invariant
            chars@ == exec@,
            i <= chars@.len(),
            ({
                let st = split_run(chars@.take(i as int));
                &&& views(tokens@) == st.tokens
                &&& current@ == st.current
                &&& single_quote == st.single
                &&& double_quote == st.double
                &&& escaped == st.escaped
            }),
        decreases chars.len() - i,
    {
        let ch = chars[i];
        assert(chars@.take(i + 1).drop_last() == chars@.take(i as int));
        if escaped {
            push_char(&mut current, ch);
            escaped = false;
        } else if ch == '\'' && !double_quote {
            single_quote = !single_quote;
        } else if ch == '"' && !single_quote {
            double_quote = !double_quote;
        } else if ch == '\\' && !single_quote {
            escaped = true;
        } else if is_whitespace(ch) && !single_quote && !double_quote {
            if !current.as_str().is_empty() {
                let word = current;
                current = String::new();
                tokens.push(word);
            }
        } else {
            push_char(&mut current, ch);
        }
        i = i + 1;
    }
    assert(chars@.take(chars@.len() as int) == chars@);
    if escaped {
        push_char(&mut current, '\\');
    }
    if single_quote || double_quote {
        return Err(exec_line_error(exec, "unterminated quote"));
    }
    if !current.as_str().is_empty() {
        tokens.push(current);
    }
    Ok(tokens)
}

// ---------------------------------------------------------------------------
// Expanding placeholders
// ---------------------------------------------------------------------------

/// The texts that the `%c`, `%i` and `%k` placeholders stand for.
pub struct Placeholders {
    pub name: Seq<char>,
    pub icon: Seq<char>,
    pub path: Seq<char>,
}

/// The icon that `%i` stands for: empty when the context has none.
pub open spec fn icon_text(context: ExecContext) -> Seq<char> {
    match context.icon {
        Some(icon) => icon@,
        None => seq![],
    }
}

/// The placeholder texts of a context.
pub open spec fn placeholders(context: ExecContext) -> Placeholders {
    Placeholders { name: context.name@, icon: icon_text(context), path: context.desktop_path@ }
}

/// What one word of an Exec line expands to.
pub enum Expansion {
    /// The word stands for files or URLs and is dropped.
    Skip,
    /// The words that replace it.
    Words(Seq<Seq<char>>),
    /// The word cannot be expanded, for the given reason.
    Failed(Seq<char>),
}

/// The state of placeholder expansion inside one word.
pub struct FieldState {
    pub out: Seq<char>,
    pub pending: bool,
    pub bad: Option<char>,
}

pub open spec fn is_file_code(c: char) -> bool {
    c == 'f' || c == 'F' || c == 'u' || c == 'U'
}

/// One character of a word: `%%` is a percent sign, the file and URL codes
/// vanish, `%i`, `%c` and `%k` give the icon, the name and the desktop file's
/// path, and any other code stops the expansion.
pub open spec fn field_step(st: FieldState, c: char, context: Placeholders) -> FieldState {
    if st.bad is Some {
        st
    } else if st.pending {
        if c == '%' {
            FieldState { out: st.out.push('%'), pending: false, bad: None }
        } else if is_file_code(c) {
            FieldState { out: st.out, pending: false, bad: None }
        } else if c == 'i' {
            FieldState { out: st.out + context.icon, pending: false, bad: None }
        } else if c == 'c' {
            FieldState { out: st.out + context.name, pending: false, bad: None }
        } else if c == 'k' {
            FieldState { out: st.out + context.path, pending: false, bad: None }
        } else {
            FieldState { out: st.out, pending: false, bad: Some(c) }
        }
    } else if c == '%' {
        FieldState { pending: true, ..st }
    } else {
        FieldState { out: st.out.push(c), ..st }
    }
}

pub open spec fn field_run(s: Seq<char>, context: Placeholders) -> FieldState
    decreases s.len(),
{
    if s.len() == 0 {
        FieldState { out: seq![], pending: false, bad: None }
    } else {
        field_step(field_run(s.drop_last(), context), s.last(), context)
    }
}

pub open spec fn unsupported_reason(c: char) -> Seq<char> {
    "unsupported desktop Exec placeholder `%"@.push(c) + "`"@
}

/// What a word of an Exec line expands to.
pub open spec fn expand_word(token: Seq<char>, context: Placeholders) -> Expansion {
    if token.len() == 2 && token[0] == '%' && is_file_code(token[1]) {
        Expansion::Skip
    } else if token == seq!['%', 'i'] {
        if context.icon.len() > 0 {
            Expansion::Words(seq![seq!['-', '-', 'i', 'c', 'o', 'n'], context.icon])
        } else {
            Expansion::Skip
        }
    } else {
        let st = field_run(token, context);
        match st.bad {
            Some(c) => Expansion::Failed(unsupported_reason(c)),
            None => if st.pending {
                Expansion::Failed("dangling `%` placeholder"@)
            } else {
                Expansion::Words(seq![st.out])
            },
        }
    }
}

fn icon_of<'a>(context: &ExecContext<'a>) -> (r: &'a str)
    ensures
        r@ == icon_text(*context),
{
    match context.icon {
        Some(icon) => icon,
        None => {
            proof {
                reveal_strlit("");
            }
            ""
        },
    }
}

fn expand_token(token: &str, context: &ExecContext) -> (r: Result<Option<Vec<String>>, LauncherError>)
    ensures
        match expand_word(token@, placeholders(*context)) {
            Expansion::Skip => r matches Ok(None),
            Expansion::Words(w) => r matches Ok(Some(v)) && views(v@) == w,
            Expansion::Failed(reason) => r matches Err(e) && is_exec_line_error(e, token@, reason),
        },
{
    proof {
        reveal_strlit("");
    }
    let chars = chars_of(token);
    if chars.len() == 2 && chars[0] == '%' && (chars[1] == 'f' || chars[1] == 'F' || chars[1] == 'u'
        || chars[1] == 'U') {
        return Ok(None);
    }
    let icon = icon_of(context);
    if chars.len() == 2 && chars[0] == '%' && chars[1] == 'i' {
        assert(chars@ =~= seq!['%', 'i']);
        if icon.is_empty() {
            return Ok(None);
        }
        let flag = owned("--icon");
        proof {
            reveal_strlit("--icon");
        }
        let mut words: Vec<String> = Vec::new();
        words.push(flag);
        words.push(owned(icon));
        assert(flag@ == "--icon"@);
        assert("--icon"@ == seq!['-', '-', 'i', 'c', 'o', 'n']);
        assert(views(words@) =~= seq![seq!['-', '-', 'i', 'c', 'o', 'n'], icon_text(*context)]);
        return Ok(Some(words));
    }
    assert(chars@ != seq!['%', 'i']);
    let mut output = String::new();
    let mut pending = false;
    let mut i: usize = 0;
    while i < chars.len()
        invariant
            chars@ == token@,
            i <= chars@.len(),
            icon@ == icon_text(*context),
            ({
                let st = field_run(chars@.take(i as int), placeholders(*context));
                &&& st.bad is None
                &&& output@ == st.out
                &&& pending == st.pending
            }),
        decreases chars.len() - i,
    {
        let ch = chars[i];
        assert(chars@.take(i + 1).drop_last() == chars@.take(i as int));
        if pending {
            pending = false;
            if ch == '%' {
                push_char(&mut output, '%');
            } else if ch == 'f' || ch == 'F' || ch == 'u' || ch == 'U' {
            } else if ch == 'i' {
                output.append(icon);
            } else if ch == 'c' {
                output.append(context.name);
            } else if ch == 'k' {
                output.append(context.desktop_path);
            } else {
                proof {
                    let k = i + 1;
                    assert forall|j: int| k <= j <= chars@.len() implies field_run(
                        chars@.take(j),
                        placeholders(*context),
                    ).bad == Some(ch) by {
                        lemma_field_bad_stays(chars@, placeholders(*context), k as int, j);
                    }
                    assert(chars@.take(chars@.len() as int) == chars@);
                }
                let mut reason = owned("unsupported desktop Exec placeholder `%");
                push_char(&mut reason, ch);
                reason.append("`");
                return Err(exec_line_error(token, reason.as_str()));
            }
        } else if ch == '%' {
            pending = true;
        } else {
            push_char(&mut output, ch);
        }
        i = i + 1;
    }
    assert(chars@.take(chars@.len() as int) == chars@);
    if pending {
        return Err(exec_line_error(token, "dangling `%` placeholder"));
    }
    let mut words: Vec<String> = Vec::new();
    words.push(output);
    assert(views(words@) =~= seq![output@]);
    Ok(Some(words))
}

proof fn lemma_field_bad_stays(s: Seq<char>, context: Placeholders, k: int, j: int)
    requires
        0 <= k <= j <= s.len(),
        field_run(s.take(k), context).bad is Some,
    ensures
        field_run(s.take(j), context).bad == field_run(s.take(k), context).bad,
    decreases j - k,
{
    if j > k {
        lemma_field_bad_stays(s, context, k, j - 1);
        assert(s.take(j).drop_last() == s.take(j - 1));
    }
}

// ---------------------------------------------------------------------------
// Parsing a whole Exec line
// ---------------------------------------------------------------------------

/// The expansion of a sequence of words: the concatenation of what each
/// expands to, or the first word that fails together with the reason.
pub open spec fn expand_words(tokens: Seq<Seq<char>>, context: Placeholders) -> Result<
    Seq<Seq<char>>,
    (Seq<char>, Seq<char>),
>
    decreases tokens.len(),
{
    if tokens.len() == 0 {
        Ok(seq![])
    } else {
        match expand_words(tokens.drop_last(), context) {
            Ok(acc) => match expand_word(tokens.last(), context) {
                Expansion::Skip => Ok(acc),
                Expansion::Words(w) => Ok(acc + w),
                Expansion::Failed(reason) => Err((tokens.last(), reason)),
            },
            Err(e) => Err(e),
        }
    }
}

/// The words that are not empty, in order.
pub open spec fn non_empty(words: Seq<Seq<char>>) -> Seq<Seq<char>>
    decreases words.len(),
{
    if words.len() == 0 {
        seq![]
    } else if words.last().len() > 0 {
        non_empty(words.drop_last()).push(words.last())
    } else {
        non_empty(words.drop_last())
    }
}

proof fn lemma_non_empty_words(words: Seq<Seq<char>>)
    ensures
        forall|i: int| 0 <= i < non_empty(words).len() ==> #[trigger] non_empty(words)[i].len() > 0,
    decreases words.len(),
{
    if words.len() > 0 {
        lemma_non_empty_words(words.drop_last());
        let prev = non_empty(words.drop_last());
        if words.last().len() > 0 {
            assert forall|i: int| 0 <= i < non_empty(words).len() implies #[trigger] non_empty(
                words,
            )[i].len() > 0 by {
                if i < prev.len() {
                    assert(non_empty(words)[i] == prev[i]);
                }
            }
        }
    }
}

/// What an Exec line parses to: the program and its arguments, or the
/// `ExecLine` error's line and reason.
pub open spec fn parse_exec_spec(exec: Seq<char>, context: Placeholders) -> Result<
    (Seq<char>, Seq<Seq<char>>),
    (Seq<char>, Seq<char>),
> {
    match split_words(exec) {
        None => Err((exec, "unterminated quote"@)),
        Some(tokens) => match expand_words(tokens, context) {
            Err(e) => Err(e),
            Ok(words) => {
                let parts = non_empty(words);
                if parts.len() == 0 {
                    Err((exec, "Exec did not contain a runnable command"@))
                } else {
                    Ok((parts[0], parts.drop_first()))
                }
            },
        },
    }
}

/// A parsed command has a program, and none of its words is empty.
pub proof fn law_parsed_words_not_empty(exec: Seq<char>, context: Placeholders)
    ensures
        parse_exec_spec(exec, context) matches Ok((program, args)) ==> {
            &&& program.len() > 0
            &&& forall|i: int| 0 <= i < args.len() ==> #[trigger] args[i].len() > 0
        },
{
    if let Some(tokens) = split_words(exec) {
        if let Ok(words) = expand_words(tokens, context) {
            lemma_non_empty_words(words);
            let parts = non_empty(words);
            if parts.len() > 0 {
                assert forall|i: int| 0 <= i < parts.drop_first().len() implies #[trigger] parts.drop_first()[i].len() > 0 by {
                    assert(parts.drop_first()[i] == parts[i + 1]);
                }
            }
        }
    }
}

/// The maximal runs of non-whitespace characters of `s`, in order: the words
/// that `str::split_whitespace` gives.
pub open spec fn whitespace_words(s: Seq<char>) -> Seq<Seq<char>>
    decreases s.len(),
{
    if s.len() == 0 {
        seq![]
    } else {
        let w = whitespace_words(s.drop_last());
        let c = s.last();
        if is_ws(c) {
            w
        } else if s.len() > 1 && !is_ws(s[s.len() - 2]) {
            w.drop_last().push(w.last().push(c))
        } else {
            w.push(seq![c])
        }
    }
}

/// `s` has no quote and no backslash.
pub open spec fn plain_text(s: Seq<char>) -> bool {
    forall|i: int| 0 <= i < s.len() ==> s[i] != '\'' && s[i] != '"' && s[i] != '\\'
}

proof fn lemma_plain_split(s: Seq<char>)
    requires
        plain_text(s),
    ensures
        !split_run(s).single && !split_run(s).double && !split_run(s).escaped,
        (split_run(s).current.len() > 0) == (s.len() > 0 && !is_ws(s.last())),
        whitespace_words(s) == if split_run(s).current.len() > 0 {
            split_run(s).tokens.push(split_run(s).current)
        } else {
            split_run(s).tokens
        },
    decreases s.len(),
{
    if s.len() > 0 {
        let p = s.drop_last();
        assert(plain_text(p)) by {
            assert forall|i: int| 0 <= i < p.len() implies p[i] != '\'' && p[i] != '"' && p[i]
                != '\\' by {
                assert(p[i] == s[i]);
            }
        }
        lemma_plain_split(p);
        let st = split_run(p);
        let c = s.last();
        assert(c == s[s.len() - 1]);
        assert(c != '\'' && c != '"' && c != '\\');
        assert(split_run(s) == split_step(st, c));
        if s.len() > 1 {
            assert(p.last() == s[s.len() - 2]);
        }
        let w = whitespace_words(p);
        if is_ws(c) {
            assert(whitespace_words(s) == w);
            if st.current.len() > 0 {
                assert(split_run(s).tokens == st.tokens.push(st.current));
                assert(split_run(s).current.len() == 0);
            } else {
                assert(split_run(s) == st);
            }
        } else {
            assert(split_run(s).current == st.current.push(c));
            assert(split_run(s).tokens == st.tokens);
            if st.current.len() > 0 {
                assert(w == st.tokens.push(st.current));
                assert(w.drop_last() =~= st.tokens);
                assert(w.last() == st.current);
                assert(whitespace_words(s) == w.drop_last().push(w.last().push(c)));
            } else {
                assert(w == st.tokens);
                assert(whitespace_words(s) == w.push(seq![c]));
                assert(st.current.push(c) =~= seq![c]);
            }
        }
    }
}

/// An Exec line without quotes or backslashes splits into its
/// whitespace-separated words.
pub proof fn law_plain_exec_splits_on_whitespace(exec: Seq<char>)
    requires
        plain_text(exec),
    ensures
        split_words(exec) == Some(whitespace_words(exec)),
{
    lemma_plain_split(exec);
}

/// The splitter's state after reading `t`, starting from `st`.
pub open spec fn split_from(st: SplitState, t: Seq<char>) -> SplitState
    decreases t.len(),
{
    if t.len() == 0 {
        st
    } else {
        split_step(split_from(st, t.drop_last()), t.last())
    }
}

proof fn lemma_split_append(p: Seq<char>, t: Seq<char>)
    ensures
        split_run(p + t) == split_from(split_run(p), t),
    decreases t.len(),
{
    if t.len() == 0 {
        assert(p + t =~= p);
    } else {
        lemma_split_append(p, t.drop_last());
        assert((p + t).drop_last() =~= p + t.drop_last());
        assert((p + t).last() == t.last());
    }
}

proof fn lemma_split_inside_double(st: SplitState, s: Seq<char>)
    requires
        st.double,
        !st.single,
        !st.escaped,
        forall|i: int| 0 <= i < s.len() ==> s[i] != '"' && s[i] != '\\',
    ensures
        split_from(st, s).tokens == st.tokens,
        split_from(st, s).current == st.current + s,
        split_from(st, s).double && !split_from(st, s).single && !split_from(st, s).escaped,
    decreases s.len(),
{
    if s.len() == 0 {
        assert(st.current + s =~= st.current);
    } else {
        lemma_split_inside_double(st, s.drop_last());
        assert(s.last() == s[s.len() - 1]);
        assert(st.current + s =~= (st.current + s.drop_last()).push(s.last()));
    }
}

/// Inside double quotes every character but `"` and `\` is kept as it is,
/// single quotes and whitespace included: after plain words, a double-quoted
/// part is one more word holding exactly the text between the quotes (so the
/// words of `a "b'c'd"` are `a` and `b'c'd`).
pub proof fn law_double_quotes_keep_their_text(words: Seq<char>, quoted: Seq<char>)
    requires
        plain_text(words),
        words.len() == 0 || is_ws(words.last()),
        quoted.len() > 0,
        forall|i: int| 0 <= i < quoted.len() ==> quoted[i] != '"' && quoted[i] != '\\',
    ensures
        split_words(words + seq!['"'] + quoted + seq!['"']) == Some(
            whitespace_words(words).push(quoted),
        ),
{
    lemma_plain_split(words);
    let st0 = split_run(words);
    let x = words + seq!['"'];
    assert(x.drop_last() =~= words);
    assert(x.last() == '"');
    let st1 = split_run(x);
    assert(st1 == split_step(st0, '"'));
    assert(st1.double && !st1.single && !st1.escaped);
    assert(st1.current.len() == 0);
    let y = x + quoted;
    lemma_split_append(x, quoted);
    lemma_split_inside_double(st1, quoted);
    let st2 = split_run(y);
    assert(st2.current =~= quoted);
    assert(st2.tokens == st0.tokens);
    let z = y + seq!['"'];
    assert(z.drop_last() =~= y);
    assert(z.last() == '"');
    let st3 = split_run(z);
    assert(st3 == split_step(st2, '"'));
    assert(!st3.double && !st3.single && !st3.escaped);
    assert(st3.current == quoted);
    assert(st3.tokens == st0.tokens);
}

/// `r` is the outcome that `parse_exec_spec` describes.
pub open spec fn parsed_as(
    r: Result<CommandLine, LauncherError>,
    expected: Result<(Seq<char>, Seq<Seq<char>>), (Seq<char>, Seq<char>)>,
) -> bool {
    match expected {
        Ok((program, args)) => r matches Ok(c) && c.program@ == program && views(c.args@) == args,
        Err((line, reason)) => r matches Err(e) && is_exec_line_error(e, line, reason),
    }
}

/// Splits a desktop `Exec` line into a program and its arguments, expanding
/// the placeholders of the desktop entry specification.
pub fn parse_exec(exec: &str, context: &ExecContext<'_>) -> (r: Result<CommandLine, LauncherError>)
    ensures
        parsed_as(r, parse_exec_spec(exec@, placeholders(*context))),
{
    let tokens = tokenize(exec)?;
    let mut expanded: Vec<String> = Vec::new();
    assert(views(tokens@).take(0) =~= seq![]);
    assert(views(expanded@) =~= seq![]);
    let mut i: usize = 0;
    while i < tokens.len()
        invariant
            i <= tokens@.len(),
            split_words(exec@) == Some(views(tokens@)),
            expand_words(views(tokens@).take(i as int), placeholders(*context)) == Ok::<
                Seq<Seq<char>>,
                (Seq<char>, Seq<char>),
            >(views(expanded@)),
        decreases tokens.len() - i,
    {
        assert(views(tokens@).take(i + 1).drop_last() == views(tokens@).take(i as int));
        match expand_token(tokens[i].as_str(), context) {
            Ok(Some(mut values)) => {
                let ghost before = views(expanded@);
                let ghost added = views(values@);
                expanded.append(&mut values);
                assert(views(expanded@) == before + added);
            },
            Ok(None) => {},
            Err(e) => {
                proof {
                    lemma_expand_error_stays(views(tokens@), placeholders(*context), i + 1);
                    assert(views(tokens@).take(tokens@.len() as int) == views(tokens@));
                }
                return Err(e);
            },
        }
        i = i + 1;
    }
    assert(views(tokens@).take(tokens@.len() as int) == views(tokens@));
    let mut parts: Vec<String> = Vec::new();
    assert(views(expanded@).take(0) =~= seq![]);
    assert(views(parts@) =~= seq![]);
    let mut j: usize = 0;
    while j < expanded.len()
        invariant
            j <= expanded@.len(),
            views(parts@) == non_empty(views(expanded@).take(j as int)),
        decreases expanded.len() - j,
    {
        assert(views(expanded@).take(j + 1).drop_last() == views(expanded@).take(j as int));
        if !expanded[j].as_str().is_empty() {
            let ghost before = views(parts@);
            parts.push(expanded[j].clone());
            assert(views(parts@) == before.push(expanded@[j as int]@));
        }
        j = j + 1;
    }
    assert(views(expanded@).take(expanded@.len() as int) == views(expanded@));
    if parts.len() == 0 {
        return Err(exec_line_error(exec, "Exec did not contain a runnable command"));
    }
    let program = parts.remove(0);
    assert(views(parts@) =~= non_empty(views(expanded@)).drop_first());
    Ok(CommandLine { program, args: parts })
}

proof fn lemma_expand_error_stays(tokens: Seq<Seq<char>>, context: Placeholders, k: int)
    requires
        0 < k <= tokens.len(),
        expand_words(tokens.take(k), context) is Err,
    ensures
        expand_words(tokens, context) == expand_words(tokens.take(k), context),
    decreases tokens.len() - k,
{
    if k < tokens.len() {
        assert(tokens.take(k + 1).drop_last() == tokens.take(k));
        lemma_expand_error_stays(tokens, context, k + 1);
    } else {
        assert(tokens.take(k) == tokens);
    }
}

} // verus!
