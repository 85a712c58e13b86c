//! The command line: registered commands, parsing of a command text into a
//! command, a bang flag and its arguments, and the command history.
//!
//! A command text is `name[!] arg ...` where an argument is a plain value, a
//! `'…'`- or `"…"`-quoted value, a `-switch`, or a `-option=value` pair.
//! Parsing is specified as a total function of the input bytes: for every
//! input it either yields the matched command with its arguments or says
//! which byte the parse failed at, and why.

use vstd::prelude::*;
use vstd::string::StringSliceAdditionalSpecFns;

verus! {

/// How many command lines the history keeps.
pub const HISTORY_CAPACITY: usize = 10;

/// Why a command text failed to parse, each with the byte index the error
/// points at.
#[derive(Clone, Copy, PartialEq, Eq, Structural, Debug)]
pub enum CommandParseError {
    InvalidCommandName(usize),
    CommandNotFound(usize),
    InvalidSwitchOrOption(usize),
    InvalidOptionValue(usize),
    UnterminatedArgument(usize),
}

/// What an executed command asks the editor loop to do.
#[derive(Clone, Copy, PartialEq, Eq, Structural, Debug)]
pub enum CommandOperation {
    Quit,
    QuitAll,
    Error,
}

/// A span inside a `CommandArgs`' text buffer.
#[derive(Clone, Copy, PartialEq, Eq, Structural, Debug)]
pub struct CommandTextRange {
    pub from: usize,
    pub to: usize,
}

impl CommandTextRange {
    /// The span's bounds, for contracts.
    pub open spec fn spec_from(&self) -> int {
        self.from as int
    }

    pub open spec fn spec_to(&self) -> int {
        self.to as int
    }

    /// The bytes this span covers in the arguments it was parsed into.
    pub fn as_str<'a>(self, args: &'a CommandArgs) -> (r: &'a [u8])
        requires
            args.wf(),
            0 <= self.spec_from() <= self.spec_to() <= args.spec_texts().len(),
        ensures
            r@ == args.spec_texts().subrange(self.spec_from(), self.spec_to()),
    {
        vstd::slice::slice_subrange(args.texts.as_slice(), self.from, self.to)
    }
}

/// One parsed argument: a plain value, a switch, or an option with a value.
#[derive(Clone, Copy, PartialEq, Eq, Structural, Debug)]
pub enum CommandArg {
    Value(CommandTextRange),
    Switch(CommandTextRange),
    Option(CommandTextRange, CommandTextRange),
}

/// A span that lies inside a text buffer of the given length.
pub open spec fn range_wf(r: CommandTextRange, len: int) -> bool {
    0 <= r.spec_from() <= r.spec_to() <= len
}

/// Every span of every argument lies inside a text buffer of the given
/// length.
pub open spec fn args_all_wf(args: Seq<CommandArg>, len: int) -> bool {
    forall|i: int| 0 <= i < args.len() ==> arg_wf(#[trigger] args[i], len)
}

/// Every span of an argument lies inside a text buffer of the given length.
pub open spec fn arg_wf(a: CommandArg, len: int) -> bool {
    match a {
        CommandArg::Value(r) => range_wf(r, len),
        CommandArg::Switch(r) => range_wf(r, len),
        CommandArg::Option(k, v) => range_wf(k, len) && range_wf(v, len),
    }
}

/// The arguments of the last parsed command: the argument list, and the text
/// buffer its spans point into.
pub struct CommandArgs {
    texts: Vec<u8>,
    args: Vec<CommandArg>,
}

impl CommandArgs {
    pub closed spec fn spec_texts(&self) -> Seq<u8> {
        self.texts@
    }

    pub closed spec fn spec_args(&self) -> Seq<CommandArg> {
        self.args@
    }

    /// All spans lie inside the text buffer.
    pub open spec fn wf(&self) -> bool {
        args_all_wf(self.spec_args(), self.spec_texts().len() as int)
    }

    /// An empty argument list.
    pub fn new() -> (r: Self)
        ensures
            r.spec_texts() == Seq::<u8>::empty(),
            r.spec_args() == Seq::<CommandArg>::empty(),
            r.wf(),
    {
        Self { texts: Vec::new(), args: Vec::new() }
    }

    /// The parsed arguments in order.
    pub fn iter(&self) -> (r: &Vec<CommandArg>)
        ensures
            r@ == self.spec_args(),
    {
        &self.args
    }

    /// The plain values among the arguments, in order.
    pub fn values(&self) -> (r: Vec<CommandTextRange>)
        requires
            self.wf(),
        ensures
            r@ == spec_values(self.spec_args()),
            forall|i: int|
                0 <= i < r@.len() ==> range_wf(#[trigger] r@[i], self.spec_texts().len() as int),
    {
        let mut r: Vec<CommandTextRange> = Vec::new();
        let mut i: usize = 0;
        proof {
            assert(self.spec_args().take(0) =~= Seq::<CommandArg>::empty());
        }
        while i < self.args.len()
            invariant
                self.wf(),
                i <= self.spec_args().len(),
                r@ == spec_values(self.spec_args().take(i as int)),
                forall|k: int|
                    0 <= k < r@.len() ==> range_wf(
                        #[trigger] r@[k],
                        self.spec_texts().len() as int,
                    ),
            decreases self.spec_args().len() - i,
        {
            proof {
                assert(self.spec_args().take(i as int + 1).drop_last() =~= self.spec_args().take(
                    i as int,
                ));
                assert(self.spec_args().take(i as int + 1).last() == self.spec_args()[i as int]);
            }
            match self.args[i] {
                CommandArg::Value(range) => {
                    r.push(range);
                },
                _ => {},
            }
            i = i + 1;
        }
        proof {
            assert(self.spec_args().take(self.spec_args().len() as int) =~= self.spec_args());
        }
        r
    }

    /// The switches among the arguments, in order.
    pub fn switches(&self) -> (r: Vec<CommandTextRange>)
        requires
            self.wf(),
        ensures
            r@ == spec_switches(self.spec_args()),
            forall|i: int|
                0 <= i < r@.len() ==> range_wf(#[trigger] r@[i], self.spec_texts().len() as int),
    {
        let mut r: Vec<CommandTextRange> = Vec::new();
        let mut i: usize = 0;
        proof {
            assert(self.spec_args().take(0) =~= Seq::<CommandArg>::empty());
        }
        while i < self.args.len()
            invariant
                self.wf(),
                i <= self.spec_args().len(),
                r@ == spec_switches(self.spec_args().take(i as int)),
                forall|k: int|
                    0 <= k < r@.len() ==> range_wf(
                        #[trigger] r@[k],
                        self.spec_texts().len() as int,
                    ),
            decreases self.spec_args().len() - i,
        {
            proof {
                assert(self.spec_args().take(i as int + 1).drop_last() =~= self.spec_args().take(
                    i as int,
                ));
                assert(self.spec_args().take(i as int + 1).last() == self.spec_args()[i as int]);
            }
            match self.args[i] {
                CommandArg::Switch(range) => {
                    r.push(range);
                },
                _ => {},
            }
            i = i + 1;
        }
        proof {
            assert(self.spec_args().take(self.spec_args().len() as int) =~= self.spec_args());
        }
        r
    }

    /// The option pairs among the arguments, in order.
    pub fn options(&self) -> (r: Vec<(CommandTextRange, CommandTextRange)>)
        requires
            self.wf(),
        ensures
            r@ == spec_options(self.spec_args()),
            forall|i: int|
                0 <= i < r@.len() ==> range_wf(
                    (#[trigger] r@[i]).0,
                    self.spec_texts().len() as int,
                ) && range_wf(r@[i].1, self.spec_texts().len() as int),
    {
        let mut r: Vec<(CommandTextRange, CommandTextRange)> = Vec::new();
        let mut i: usize = 0;
        proof {
            assert(self.spec_args().take(0) =~= Seq::<CommandArg>::empty());
        }
        while i < self.args.len()
            invariant
                self.wf(),
                i <= self.spec_args().len(),
                r@ == spec_options(self.spec_args().take(i as int)),
                forall|k: int|
                    0 <= k < r@.len() ==> range_wf(
                        (#[trigger] r@[k]).0,
                        self.spec_texts().len() as int,
                    ) && range_wf(r@[k].1, self.spec_texts().len() as int),
            decreases self.spec_args().len() - i,
        {
            proof {
                assert(self.spec_args().take(i as int + 1).drop_last() =~= self.spec_args().take(
                    i as int,
                ));
                assert(self.spec_args().take(i as int + 1).last() == self.spec_args()[i as int]);
            }
            match self.args[i] {
                CommandArg::Option(key, value) => {
                    let entry = (key, value);
                    r.push(entry);
                },
                _ => {},
            }
            i = i + 1;
        }
        proof {
            assert(self.spec_args().take(self.spec_args().len() as int) =~= self.spec_args());
        }
        r
    }

    /// Empties the argument list and its text buffer.
    pub fn clear(&mut self)
        ensures
            final(self).spec_texts() == Seq::<u8>::empty(),
            final(self).spec_args() == Seq::<CommandArg>::empty(),
            final(self).wf(),
    {
        self.texts.clear();
        self.args.clear();
    }
}

/// The spans of the plain values among the arguments, in order.
pub open spec fn spec_values(args: Seq<CommandArg>) -> Seq<CommandTextRange>
    decreases args.len(),
{
    if args.len() == 0 {
        Seq::<CommandTextRange>::empty()
    } else {
        let init = spec_values(args.drop_last());
        match args.last() {
            CommandArg::Value(r) => init.push(r),
            _ => init,
        }
    }
}

/// The spans of the switches among the arguments, in order.
pub open spec fn spec_switches(args: Seq<CommandArg>) -> Seq<CommandTextRange>
    decreases args.len(),
{
    if args.len() == 0 {
        Seq::<CommandTextRange>::empty()
    } else {
        let init = spec_switches(args.drop_last());
        match args.last() {
            CommandArg::Switch(r) => init.push(r),
            _ => init,
        }
    }
}

/// The span pairs of the options among the arguments, in order.
pub open spec fn spec_options(args: Seq<CommandArg>) -> Seq<(CommandTextRange, CommandTextRange)>
    decreases args.len(),
{
    if args.len() == 0 {
        Seq::<(CommandTextRange, CommandTextRange)>::empty()
    } else {
        let init = spec_options(args.drop_last());
        match args.last() {
            CommandArg::Option(k, v) => init.push((k, v)),
            _ => init,
        }
    }
}

/// The bytes that end an unquoted token.
pub open spec fn is_separator(b: u8) -> bool {
    b == 32 || b == 61 || b == 33 || b == 34 || b == 39
}

/// Blank bytes skipped between tokens.
pub open spec fn is_blank(b: u8) -> bool {
    b == 32 || b == 9
}

/// The first non-blank byte index at or after `i`.
pub open spec fn skip_blanks(text: Seq<u8>, i: int) -> int
    decreases text.len() - i,
{
    if i < 0 || i >= text.len() {
        text.len() as int
    } else if is_blank(text[i]) {
        skip_blanks(text, i + 1)
    } else {
        i
    }
}

/// The first separator index at or after `i`, or the text's length.
pub open spec fn find_separator(text: Seq<u8>, i: int) -> int
    decreases text.len() - i,
{
    if i < 0 || i >= text.len() {
        text.len() as int
    } else if is_separator(text[i]) {
        i
    } else {
        find_separator(text, i + 1)
    }
}

/// The first index of byte `b` at or after `i`, or the text's length.
pub open spec fn find_byte(text: Seq<u8>, i: int, b: u8) -> int
    decreases text.len() - i,
{
    if i < 0 || i >= text.len() {
        text.len() as int
    } else if text[i] == b {
        i
    } else {
        find_byte(text, i + 1, b)
    }
}

/// The shape of one token.
#[derive(Clone, Copy, PartialEq, Eq, Structural, Debug)]
pub enum TokenKind {
    Text,
    Flag,
    Equals,
    Bang,
    Unterminated,
}

/// The next token at or after byte `i`: its kind, the bounds of its
/// content, and where scanning continues; `None` when only blanks remain.
/// A `-flag` token's content starts after the dash; a quoted token's
/// content excludes the quotes, and an unclosed quote yields an
/// `Unterminated` token reaching the end of the text.
pub open spec fn spec_next_token(text: Seq<u8>, i: int) -> Option<(TokenKind, int, int, int)> {
    let s = skip_blanks(text, i);
    if s >= text.len() {
        None
    } else if text[s] == 45 {
        let e = find_separator(text, s + 1);
        Some((TokenKind::Flag, s + 1, e, e))
    } else if text[s] == 34 || text[s] == 39 {
        let e = find_byte(text, s + 1, text[s]);
        if e < text.len() {
            Some((TokenKind::Text, s + 1, e, e + 1))
        } else {
            Some((TokenKind::Unterminated, s + 1, text.len() as int, text.len() as int))
        }
    } else if text[s] == 61 {
        Some((TokenKind::Equals, s, s + 1, s + 1))
    } else if text[s] == 33 {
        Some((TokenKind::Bang, s, s + 1, s + 1))
    } else {
        let e = find_separator(text, s);
        Some((TokenKind::Text, s, e, e))
    }
}

pub proof fn lemma_skip_blanks_bounds(text: Seq<u8>, i: int)
    requires
        0 <= i <= text.len(),
    ensures
        i <= skip_blanks(text, i),
        skip_blanks(text, i) <= text.len(),
        skip_blanks(text, i) < text.len() ==> !is_blank(text[skip_blanks(text, i)]),
    decreases text.len() - i,
{
    if 0 <= i < text.len() && is_blank(text[i]) {
        lemma_skip_blanks_bounds(text, i + 1);
    }
}

pub proof fn lemma_find_separator_bounds(text: Seq<u8>, i: int)
    requires
        0 <= i <= text.len(),
    ensures
        i <= find_separator(text, i),
        find_separator(text, i) <= text.len(),
    decreases text.len() - i,
{
    if 0 <= i < text.len() && !is_separator(text[i]) {
        lemma_find_separator_bounds(text, i + 1);
    }
}

pub proof fn lemma_find_byte_bounds(text: Seq<u8>, i: int, b: u8)
    requires
        0 <= i <= text.len(),
    ensures
        i <= find_byte(text, i, b),
        find_byte(text, i, b) <= text.len(),
    decreases text.len() - i,
{
    if 0 <= i < text.len() && text[i] != b {
        lemma_find_byte_bounds(text, i + 1, b);
    }
}

/// Every token makes progress: its content lies inside the text and
/// scanning continues strictly past where it started.
pub proof fn lemma_next_token_advances(text: Seq<u8>, i: int)
    requires
        0 <= i <= text.len(),
    ensures
        match spec_next_token(text, i) {
            Some((kind, s, e, nx)) => i < nx && 0 <= s <= e <= text.len() && nx <= text.len(),
            None => true,
        },
{
    lemma_skip_blanks_bounds(text, i);
    let s = skip_blanks(text, i);
    if s < text.len() {
        if text[s] == 45 {
            lemma_find_separator_bounds(text, s + 1);
        } else if text[s] == 34 || text[s] == 39 {
            lemma_find_byte_bounds(text, s + 1, text[s]);
        } else if text[s] == 61 || text[s] == 33 {
        } else {
            lemma_find_separator_bounds(text, s + 1);
            assert(find_separator(text, s) == find_separator(text, s + 1));
        }
    }
}

/// The arguments parsed from byte `i` on, given the text and argument spans
/// accumulated so far, or the error the argument list ends in.
pub open spec fn spec_parse_args(
    text: Seq<u8>,
    i: int,
    texts: Seq<u8>,
    args: Seq<CommandArg>,
) -> Result<(Seq<u8>, Seq<CommandArg>), CommandParseError>
    decreases text.len() - i,
    when 0 <= i <= text.len()
    via spec_parse_args_decreases
{
    match spec_next_token(text, i) {
        None => Ok((texts, args)),
        Some((kind, s, e, nx)) => {
            if kind == TokenKind::Text {
                let range = CommandTextRange {
                    from: texts.len() as usize,
                    to: (texts.len() + e - s) as usize,
                };
                spec_parse_args(
                    text,
                    nx,
                    texts + text.subrange(s, e),
                    args.push(CommandArg::Value(range)),
                )
            } else if kind == TokenKind::Flag {
                let flag_range = CommandTextRange {
                    from: texts.len() as usize,
                    to: (texts.len() + e - s) as usize,
                };
                let flag_texts = texts + text.subrange(s, e);
                match spec_next_token(text, nx) {
                    Some((TokenKind::Equals, es, ee, enx)) => match spec_next_token(text, enx) {
                        Some((TokenKind::Text, vs, ve, vnx)) => {
                            let value_range = CommandTextRange {
                                from: flag_texts.len() as usize,
                                to: (flag_texts.len() + ve - vs) as usize,
                            };
                            spec_parse_args(
                                text,
                                vnx,
                                flag_texts + text.subrange(vs, ve),
                                args.push(CommandArg::Option(flag_range, value_range)),
                            )
                        },
                        Some((TokenKind::Unterminated, vs, ve, vnx)) => Err(
                            CommandParseError::UnterminatedArgument((vs - 1) as usize),
                        ),
                        Some((vkind, vs, ve, vnx)) => Err(
                            CommandParseError::InvalidOptionValue(vs as usize),
                        ),
                        None => Err(CommandParseError::InvalidOptionValue(es as usize)),
                    },
                    _ => spec_parse_args(
                        text,
                        nx,
                        flag_texts,
                        args.push(CommandArg::Switch(flag_range)),
                    ),
                }
            } else if kind == TokenKind::Equals || kind == TokenKind::Bang {
                Err(CommandParseError::InvalidSwitchOrOption(s as usize))
            } else {
                Err(CommandParseError::UnterminatedArgument((s - 1) as usize))
            }
        },
    }
}

#[via_fn]
proof fn spec_parse_args_decreases(text: Seq<u8>, i: int, texts: Seq<u8>, args: Seq<CommandArg>) {
    lemma_next_token_advances(text, i);
    match spec_next_token(text, i) {
        Some((kind, s, e, nx)) => {
            lemma_next_token_advances(text, nx);
            match spec_next_token(text, nx) {
                Some((kind2, s2, e2, nx2)) => {
                    lemma_next_token_advances(text, nx2);
                },
                None => {},
            }
        },
        None => {},
    }
}

/// Output a command writes for the status area.
pub struct CommandOutput {
    text: Vec<u8>,
}

impl CommandOutput {
    pub closed spec fn spec_text(&self) -> Seq<u8> {
        self.text@
    }

    /// An empty output.
    pub fn new() -> (r: Self)
        ensures
            r.spec_text() == Seq::<u8>::empty(),
    {
        Self { text: Vec::new() }
    }

    /// Empties the output.
    pub fn clear(&mut self)
        ensures
            final(self).spec_text() == Seq::<u8>::empty(),
    {
        self.text.clear();
    }

    /// Appends bytes to the output.
    pub fn write_str(&mut self, output: &[u8])
        ensures
            final(self).spec_text() == old(self).spec_text() + output@,
    {
        push_bytes(&mut self.text, output);
    }

    /// The output written so far.
    pub fn as_bytes(&self) -> (r: &[u8])
        ensures
            r@ == self.spec_text(),
    {
        self.text.as_slice()
    }
}

/// Appends a byte slice to a vector.
fn push_bytes(out: &mut Vec<u8>, bytes: &[u8])
    ensures
        final(out)@ == old(out)@ + bytes@,
{
    let mut i: usize = 0;
    proof {
        assert(old(out)@ + bytes@.take(0) =~= old(out)@);
    }
    while i < bytes.len()
        invariant
            i <= bytes@.len(),
            out@ == old(out)@ + bytes@.take(i as int),
        decreases bytes@.len() - i,
    {
        let b = bytes[i];
        out.push(b);
        proof {
            assert(old(out)@ + bytes@.take(i as int + 1) =~= (old(out)@ + bytes@.take(
                i as int,
            )).push(bytes@[i as int]));
        }
        i = i + 1;
    }
    proof {
        assert(bytes@.take(bytes@.len() as int) =~= bytes@);
    }
}

/// Whether two byte slices hold the same bytes.
fn bytes_eq(a: &[u8], b: &[u8]) -> (r: bool)
    ensures
        r == (a@ == b@),
{
    if a.len() != b.len() {
        proof {
            assert(a@.len() != b@.len());
        }
        return false;
    }
    let mut i: usize = 0;
    while i < a.len()
        invariant
            a@.len() == b@.len(),
            i <= a@.len(),
            forall|k: int| 0 <= k < i ==> a@[k] == b@[k],
        decreases a@.len() - i,
    {
        if a[i] != b[i] {
            proof {
                assert(a@[i as int] != b@[i as int]);
            }
            return false;
        }
        i = i + 1;
    }
    proof {
        assert(a@ =~= b@);
    }
    true
}

/// A command registered with the manager: its name, an optional short
/// alias, and its help text. What the command does when executed is the
/// caller's business; parsing only resolves which command was named.
pub struct BuiltinCommand {
    pub name: &'static str,
    pub alias: Option<&'static str>,
    pub help: &'static str,
}

/// Whether a token names this command, by its name or its alias.
pub open spec fn spec_command_matches(command: BuiltinCommand, token: Seq<u8>) -> bool {
    command.name.spec_bytes() == token || (command.alias is Some
        && command.alias->0.spec_bytes() == token)
}

/// The first registered command a token names, if any.
pub open spec fn spec_find_command(commands: Seq<BuiltinCommand>, token: Seq<u8>) -> Option<int>
    decreases commands.len(),
{
    if commands.len() == 0 {
        None
    } else if spec_command_matches(commands[0], token) {
        Some(0int)
    } else {
        match spec_find_command(commands.drop_first(), token) {
            Some(i) => Some(i + 1),
            None => None,
        }
    }
}

/// What parsing a whole command text yields: the index of the named
/// command, whether a bang follows its name, and the argument text and
/// spans; or the parse error.
pub open spec fn spec_parse(text: Seq<u8>, commands: Seq<BuiltinCommand>) -> Result<
    (int, bool, Seq<u8>, Seq<CommandArg>),
    CommandParseError,
> {
    match spec_next_token(text, 0) {
        None => Err(CommandParseError::InvalidCommandName(skip_blanks(text, 0) as usize)),
        Some((kind, s, e, nx)) => {
            if kind == TokenKind::Text {
                match spec_find_command(commands, text.subrange(s, e)) {
                    None => Err(CommandParseError::CommandNotFound(s as usize)),
                    Some(ci) => {
                        let after_bang = match spec_next_token(text, nx) {
                            Some((TokenKind::Bang, bs, be, bnx)) => (true, bnx),
                            _ => (false, nx),
                        };
                        match spec_parse_args(
                            text,
                            after_bang.1,
                            Seq::<u8>::empty(),
                            Seq::<CommandArg>::empty(),
                        ) {
                            Ok(parsed) => Ok((ci, after_bang.0, parsed.0, parsed.1)),
                            Err(e2) => Err(e2),
                        }
                    },
                }
            } else {
                Err(CommandParseError::InvalidCommandName(s as usize))
            }
        },
    }
}

/// Exec mirror of `spec_next_token`.
fn next_token(text: &[u8], i: usize) -> (r: Option<(TokenKind, usize, usize, usize)>)
    requires
        i <= text@.len(),
    ensures
        match r {
            Some(t) => spec_next_token(text@, i as int) == Some(
                (t.0, t.1 as int, t.2 as int, t.3 as int),
            ) && t.1 <= t.2 <= text@.len() && i < t.3 <= text@.len() && ((t.0
                == TokenKind::Unterminated || t.0 == TokenKind::Flag) ==> t.1 >= 1),
            None => spec_next_token(text@, i as int) is None,
        },
{
    proof {
        lemma_next_token_advances(text@, i as int);
    }
    let mut s = i;
    while s < text.len() && (text[s] == 32 || text[s] == 9)
        invariant
            i <= s <= text@.len(),
            skip_blanks(text@, i as int) == skip_blanks(text@, s as int),
        decreases text@.len() - s,
    {
        s = s + 1;
    }
    if s >= text.len() {
        return None;
    }
    let b = text[s];
    if b == 45 {
        let e = find_separator_from(text, s + 1);
        Some((TokenKind::Flag, s + 1, e, e))
    } else if b == 34 || b == 39 {
        let e = find_byte_from(text, s + 1, b);
        if e < text.len() {
            Some((TokenKind::Text, s + 1, e, e + 1))
        } else {
            Some((TokenKind::Unterminated, s + 1, text.len(), text.len()))
        }
    } else if b == 61 {
        Some((TokenKind::Equals, s, s + 1, s + 1))
    } else if b == 33 {
        Some((TokenKind::Bang, s, s + 1, s + 1))
    } else {
        let e = find_separator_from(text, s);
        Some((TokenKind::Text, s, e, e))
    }
}

/// The first separator index at or after `i`, or the text's length.
fn find_separator_from(text: &[u8], i: usize) -> (r: usize)
    requires
        i <= text@.len(),
    ensures
        r == find_separator(text@, i as int),
        i <= r <= text@.len(),
{
    let mut c = i;
    while c < text.len() && !(text[c] == 32 || text[c] == 61 || text[c] == 33 || text[c] == 34
        || text[c] == 39)
        invariant
            i <= c <= text@.len(),
            find_separator(text@, i as int) == find_separator(text@, c as int),
        decreases text@.len() - c,
    {
        c = c + 1;
    }
    c
}

/// The first index of byte `b` at or after `i`, or the text's length.
fn find_byte_from(text: &[u8], i: usize, b: u8) -> (r: usize)
    requires
        i <= text@.len(),
    ensures
        r == find_byte(text@, i as int, b),
        i <= r <= text@.len(),
{
    let mut c = i;
    while c < text.len() && text[c] != b
        invariant
            i <= c <= text@.len(),
            find_byte(text@, i as int, b) == find_byte(text@, c as int, b),
        decreases text@.len() - c,
    {
        c = c + 1;
    }
    c
}

/// The blank padding and caret that point at an error's byte index: the
/// caret is right-aligned in the given width.
pub open spec fn spec_caret_line(width: int) -> Seq<u8> {
    Seq::new(if width >= 1 { (width - 1) as nat } else { 0nat }, |k: int| 32u8).push(94u8)
}

/// The width the caret is aligned to and the message text for each error.
pub open spec fn spec_error_width(e: CommandParseError) -> int {
    match e {
        CommandParseError::InvalidCommandName(i) => i + 1,
        CommandParseError::CommandNotFound(i) => i + 1,
        CommandParseError::InvalidSwitchOrOption(i) => i as int,
        CommandParseError::InvalidOptionValue(i) => i + 1,
        CommandParseError::UnterminatedArgument(i) => i + 1,
    }
}

pub open spec fn spec_error_message(e: CommandParseError) -> Seq<u8> {
    match e {
        CommandParseError::InvalidCommandName(_) => " invalid command name".spec_bytes(),
        CommandParseError::CommandNotFound(_) => " command not found".spec_bytes(),
        CommandParseError::InvalidSwitchOrOption(_) => " invalid switch or option".spec_bytes(),
        CommandParseError::InvalidOptionValue(_) => " invalid option value".spec_bytes(),
        CommandParseError::UnterminatedArgument(_) => " unterminated argument".spec_bytes(),
    }
}

/// The text a parse error is reported as: the command line, then a caret
/// under the offending byte and the error's message.
pub open spec fn spec_format_parse_error(e: CommandParseError, command: Seq<u8>) -> Seq<u8> {
    command + seq![10u8] + spec_caret_line(spec_error_width(e)) + spec_error_message(e)
}

/// Appends `count` blanks and a caret.
fn push_caret(out: &mut Vec<u8>, count: usize)
    ensures
        final(out)@ == old(out)@ + spec_caret_line(count + 1),
{
    let mut i: usize = 0;
    while i < count
        invariant
            i <= count,
            out@ == old(out)@ + Seq::new(i as nat, |k: int| 32u8),
        decreases count - i,
    {
        out.push(32);
        proof {
            assert(out@ =~= old(out)@ + Seq::new(i as nat + 1, |k: int| 32u8));
        }
        i = i + 1;
    }
    out.push(94);
    proof {
        assert(out@ =~= old(out)@ + spec_caret_line(count + 1));
    }
}

/// Registered commands, the arguments of the last parse, the output of the
/// last command, and the command history.
pub struct CommandManager {
    builtin_commands: Vec<BuiltinCommand>,
    parsed_args: CommandArgs,
    output: CommandOutput,
    history: Vec<Vec<u8>>,
}

impl CommandManager {
    pub closed spec fn spec_commands(&self) -> Seq<BuiltinCommand> {
        self.builtin_commands@
    }

    pub closed spec fn spec_history(&self) -> Seq<Seq<u8>> {
        self.history.deep_view()
    }

    pub open spec fn wf(&self) -> bool {
        &&& self.spec_parsed_args().wf()
        &&& self.spec_history().len() <= HISTORY_CAPACITY
    }

    pub closed spec fn spec_parsed_args(&self) -> CommandArgs {
        self.parsed_args
    }

    /// A manager with no commands, no parsed arguments and no history.
    pub fn new() -> (r: Self)
        ensures
            r.spec_commands() == Seq::<BuiltinCommand>::empty(),
            r.spec_history() == Seq::<Seq<u8>>::empty(),
            r.wf(),
    {
        let r = Self {
            builtin_commands: Vec::new(),
            parsed_args: CommandArgs::new(),
            output: CommandOutput::new(),
            history: Vec::new(),
        };
        proof {
            assert(r.spec_history() =~~= Seq::<Seq<u8>>::empty());
        }
        r
    }

    /// Registers one more command.
    pub fn register_builtin(&mut self, command: BuiltinCommand)
        requires
            old(self).wf(),
        ensures
            final(self).wf(),
            final(self).spec_commands() == old(self).spec_commands().push(command),
            final(self).spec_history() == old(self).spec_history(),
            final(self).spec_parsed_args() == old(self).spec_parsed_args(),
    {
        self.builtin_commands.push(command);
    }

    /// The arguments of the last successful parse.
    pub fn parsed_args(&self) -> (r: &CommandArgs)
        ensures
            r == self.spec_parsed_args(),
    {
        &self.parsed_args
    }

    /// The output written by the last executed command.
    pub fn output(&self) -> (r: &CommandOutput)
        ensures
            r.spec_text() == self.spec_output_text(),
    {
        &self.output
    }

    pub closed spec fn spec_output_text(&self) -> Seq<u8> {
        self.output.spec_text()
    }

    /// How many command lines the history holds; never more than the
    /// history's capacity.
    pub fn history_len(&self) -> (r: usize)
        requires
            self.wf(),
        ensures
            r == self.spec_history().len(),
            r <= HISTORY_CAPACITY,
    {
        self.history.len()
    }

    /// The history entry at the given index, or nothing for an index out of
    /// range.
    pub fn history_entry(&self, index: usize) -> (r: &[u8])
        ensures
            index < self.spec_history().len() ==> r@ == self.spec_history()[index as int],
            index >= self.spec_history().len() ==> r@ == Seq::<u8>::empty(),
    {
        if index < self.history.len() {
            self.history[index].as_slice()
        } else {
            let empty: &[u8] = &[];
            proof {
                assert(empty@ =~= Seq::<u8>::empty());
            }
            empty
        }
    }

    /// Appends a command line to the history, dropping the oldest entry when
    /// the history is full. An empty line is not recorded.
    pub fn add_to_history(&mut self, entry: &[u8])
        requires
            old(self).wf(),
        ensures
            final(self).wf(),
            final(self).spec_commands() == old(self).spec_commands(),
            final(self).spec_parsed_args() == old(self).spec_parsed_args(),
            entry@.len() == 0 ==> final(self).spec_history() == old(self).spec_history(),
            entry@.len() > 0 && old(self).spec_history().len() < HISTORY_CAPACITY ==> final(self).spec_history() =~~= old(self).spec_history().push(entry@),
            entry@.len() > 0 && old(self).spec_history().len() >= HISTORY_CAPACITY ==> final(self).spec_history() =~~= old(self).spec_history().drop_first().push(entry@),
    {
        if entry.len() == 0 {
            return ;
        }
        let ghost h0 = self.history.deep_view();
        if self.history.len() >= HISTORY_CAPACITY {
            self.history.remove(0);
            proof {
                assert(self.history.deep_view() =~~= h0.drop_first());
            }
        }
        let ghost h1 = self.history.deep_view();
        let owned = vstd::slice::slice_to_vec(entry);
        self.history.push(owned);
        proof {
            assert(self.history.deep_view() =~~= h1.push(entry@));
        }
    }

    /// The first registered command the token names, by name or alias.
    fn find_command(&self, token: &[u8]) -> (r: Option<usize>)
        ensures
            match r {
                Some(ci) => spec_find_command(self.spec_commands(), token@) == Some(ci as int)
                    && ci < self.spec_commands().len(),
                None => spec_find_command(self.spec_commands(), token@) is None,
            },
    {
        let mut i: usize = 0;
        while i < self.builtin_commands.len()
            invariant
                i <= self.spec_commands().len(),
                forall|k: int|
                    0 <= k < i ==> !spec_command_matches(
                        #[trigger] self.spec_commands()[k],
                        token@,
                    ),
            decreases self.spec_commands().len() - i,
        {
            let command = &self.builtin_commands[i];
            let by_name = bytes_eq(token, command.name.as_bytes());
            let by_alias = match command.alias {
                Some(alias) => bytes_eq(token, alias.as_bytes()),
                None => false,
            };
            if by_name || by_alias {
                proof {
                    lemma_find_command_prefix(self.spec_commands(), token@, i as int);
                }
                return Some(i);
            }
            i = i + 1;
        }
        proof {
            lemma_find_command_none(self.spec_commands(), token@);
        }
        None
    }
}

/// When the first `i` commands do not match and command `i` does, the search
/// finds `i`.
pub proof fn lemma_find_command_prefix(commands: Seq<BuiltinCommand>, token: Seq<u8>, i: int)
    requires
        0 <= i < commands.len(),
        forall|k: int| 0 <= k < i ==> !spec_command_matches(#[trigger] commands[k], token),
        spec_command_matches(commands[i], token),
    ensures
        spec_find_command(commands, token) == Some(i),
    decreases i,
{
    if i == 0 {
    } else {
        assert(!spec_command_matches(commands[0], token));
        lemma_find_command_prefix(commands.drop_first(), token, i - 1);
    }
}

/// When no command matches, the search finds none.
pub proof fn lemma_find_command_none(commands: Seq<BuiltinCommand>, token: Seq<u8>)
    requires
        forall|k: int|
            0 <= k < commands.len() ==> !spec_command_matches(#[trigger] commands[k], token),
    ensures
        spec_find_command(commands, token) is None,
    decreases commands.len(),
{
    if commands.len() > 0 {
        lemma_find_command_none(commands.drop_first(), token);
    }
}

impl CommandManager {
    /// Parses a command text: resolves which registered command it names,
    /// whether a bang follows the name, and the arguments, which are left in
    /// `parsed_args`. On failure the result says which byte the parse
    /// failed at, and why; which command to then execute is the caller's
    /// business.
    #[verifier::rlimit(60)]
    pub fn parse(&mut self, text: &[u8]) -> (r: Result<(usize, bool), CommandParseError>)
        requires
            old(self).wf(),
        ensures
            final(self).wf(),
            final(self).spec_commands() == old(self).spec_commands(),
            final(self).spec_history() == old(self).spec_history(),
            final(self).spec_output_text() == old(self).spec_output_text(),
            match spec_parse(text@, old(self).spec_commands()) {
                Ok(outcome) => {
                    &&& r is Ok
                    &&& r->Ok_0.0 == outcome.0
                    &&& r->Ok_0.1 == outcome.1
                    &&& final(self).spec_parsed_args().spec_texts() == outcome.2
                    &&& final(self).spec_parsed_args().spec_args() == outcome.3
                },
                Err(e) => r == Err::<(usize, bool), CommandParseError>(e),
            },
    {
        self.parsed_args.clear();
        let first = next_token(text, 0);
        let (s, e, nx) = match first {
            Some((TokenKind::Text, s, e, nx)) => (s, e, nx),
            Some((kind, s, e, nx)) => {
                return Err(CommandParseError::InvalidCommandName(s));
            },
            None => {
                proof {
                    lemma_skip_blanks_bounds(text@, 0);
                }
                let mut c: usize = 0;
                while c < text.len() && (text[c] == 32 || text[c] == 9)
                    invariant
                        c <= text@.len(),
                        skip_blanks(text@, 0) == skip_blanks(text@, c as int),
                    decreases text@.len() - c,
                {
                    c = c + 1;
                }
                return Err(CommandParseError::InvalidCommandName(c));
            },
        };
        let token = vstd::slice::slice_subrange(text, s, e);
        let command_index = match self.find_command(token) {
            Some(ci) => ci,
            None => {
                return Err(CommandParseError::CommandNotFound(s));
            },
        };
        let (bang, start) = match next_token(text, nx) {
            Some((TokenKind::Bang, bs, be, bnx)) => (true, bnx),
            _ => (false, nx),
        };
        let ghost target = spec_parse_args(
            text@,
            start as int,
            Seq::<u8>::empty(),
            Seq::<CommandArg>::empty(),
        );
        let mut pos = start;
        loop
            invariant
                self.wf(),
                self.spec_commands() == old(self).spec_commands(),
                self.spec_history() == old(self).spec_history(),
                self.spec_output_text() == old(self).spec_output_text(),
                pos <= text@.len(),
                target == spec_parse_args(
                    text@,
                    start as int,
                    Seq::<u8>::empty(),
                    Seq::<CommandArg>::empty(),
                ),
                match spec_parse(text@, old(self).spec_commands()) {
                    Ok(outcome) => target is Ok && outcome.0 == command_index && outcome.1
                        == bang && outcome.2 == target->Ok_0.0 && outcome.3 == target->Ok_0.1,
                    Err(e) => target == Err::<(Seq<u8>, Seq<CommandArg>), CommandParseError>(e),
                },
                spec_parse_args(
                    text@,
                    pos as int,
                    self.spec_parsed_args().spec_texts(),
                    self.spec_parsed_args().spec_args(),
                ) == target,
            decreases text@.len() - pos,
        {
            let ghost texts_g = self.spec_parsed_args().spec_texts();
            let ghost args_g = self.spec_parsed_args().spec_args();
            match next_token(text, pos) {
                None => {
                    return Ok((command_index, bang));
                },
                Some((TokenKind::Text, ts, te, tnx)) => {
                    let range = self.push_arg_text(text, ts, te);
                    self.parsed_args.args.push(CommandArg::Value(range));
                    proof {
                        assert(self.spec_parsed_args().spec_args() =~= args_g.push(
                            CommandArg::Value(range),
                        ));
                        lemma_args_wf_push(
                            args_g,
                            CommandArg::Value(range),
                            self.spec_parsed_args().spec_texts().len() as int,
                            texts_g.len() as int,
                        );
                    }
                    pos = tnx;
                },
                Some((TokenKind::Flag, fs, fe, fnx)) => {
                    let flag_range = self.push_arg_text(text, fs, fe);
                    let ghost texts_g2 = self.spec_parsed_args().spec_texts();
                    match next_token(text, fnx) {
                        Some((TokenKind::Equals, es, ee, enx)) => {
                            match next_token(text, enx) {
                                Some((TokenKind::Text, vs, ve, vnx)) => {
                                    let value_range = self.push_arg_text(text, vs, ve);
                                    self.parsed_args.args.push(
                                        CommandArg::Option(flag_range, value_range),
                                    );
                                    proof {
                                        assert(self.spec_parsed_args().spec_args()
                                            =~= args_g.push(
                                            CommandArg::Option(flag_range, value_range),
                                        ));
                                        lemma_args_wf_push(
                                            args_g,
                                            CommandArg::Option(flag_range, value_range),
                                            self.spec_parsed_args().spec_texts().len() as int,
                                            texts_g.len() as int,
                                        );
                                    }
                                    pos = vnx;
                                },
                                Some((TokenKind::Unterminated, vs, ve, vnx)) => {
                                    return Err(
                                        CommandParseError::UnterminatedArgument(vs - 1),
                                    );
                                },
                                Some((vkind, vs, ve, vnx)) => {
                                    return Err(CommandParseError::InvalidOptionValue(vs));
                                },
                                None => {
                                    return Err(CommandParseError::InvalidOptionValue(es));
                                },
                            }
                        },
                        _ => {
                            self.parsed_args.args.push(CommandArg::Switch(flag_range));
                            proof {
                                assert(self.spec_parsed_args().spec_args() =~= args_g.push(
                                    CommandArg::Switch(flag_range),
                                ));
                                lemma_args_wf_push(
                                    args_g,
                                    CommandArg::Switch(flag_range),
                                    self.spec_parsed_args().spec_texts().len() as int,
                                    texts_g.len() as int,
                                );
                            }
                            pos = fnx;
                        },
                    }
                },
                Some((TokenKind::Equals, ts, te, tnx)) => {
                    return Err(CommandParseError::InvalidSwitchOrOption(ts));
                },
                Some((TokenKind::Bang, ts, te, tnx)) => {
                    return Err(CommandParseError::InvalidSwitchOrOption(ts));
                },
                Some((TokenKind::Unterminated, ts, te, tnx)) => {
                    return Err(CommandParseError::UnterminatedArgument(ts - 1));
                },
            }
        }
    }

    /// Copies `text[from..to]` into the argument text buffer and returns its
    /// span.
    fn push_arg_text(&mut self, text: &[u8], from: usize, to: usize) -> (range: CommandTextRange)
        requires
            old(self).wf(),
            from <= to <= text@.len(),
        ensures
            final(self).wf(),
            final(self).spec_commands() == old(self).spec_commands(),
            final(self).spec_history() == old(self).spec_history(),
            final(self).spec_output_text() == old(self).spec_output_text(),
            final(self).spec_parsed_args().spec_args() == old(self).spec_parsed_args().spec_args(),
            final(self).spec_parsed_args().spec_texts() == old(self).spec_parsed_args().spec_texts()
                + text@.subrange(from as int, to as int),
            range.spec_from() == old(self).spec_parsed_args().spec_texts().len(),
            range.spec_to() == old(self).spec_parsed_args().spec_texts().len() + (to - from),
    {
        let piece = vstd::slice::slice_subrange(text, from, to);
        let start = self.parsed_args.texts.len();
        push_bytes(&mut self.parsed_args.texts, piece);
        let end = self.parsed_args.texts.len();
        proof {
            lemma_args_wf_grow(
                self.spec_parsed_args().spec_args(),
                old(self).spec_parsed_args().spec_texts().len() as int,
                self.spec_parsed_args().spec_texts().len() as int,
            );
        }
        CommandTextRange { from: start, to: end }
    }
}

/// A well-formed argument list stays well formed when the text buffer only
/// grows.
pub proof fn lemma_args_wf_grow(args: Seq<CommandArg>, len0: int, len1: int)
    requires
        len0 <= len1,
        args_all_wf(args, len0),
    ensures
        args_all_wf(args, len1),
{
    assert forall|i: int| 0 <= i < args.len() implies arg_wf(#[trigger] args[i], len1) by {
        assert(arg_wf(args[i], len0));
    }
}

/// Pushing an in-bounds argument keeps the list well formed.
pub proof fn lemma_args_wf_push(args: Seq<CommandArg>, a: CommandArg, len: int, len0: int)
    requires
        len0 <= len,
        args_all_wf(args, len0),
        arg_wf(a, len),
    ensures
        args_all_wf(args.push(a), len),
{
    lemma_args_wf_grow(args, len0, len);
    assert forall|i: int|
        0 <= i < args.push(a).len() implies arg_wf(#[trigger] args.push(a)[i], len) by {
        if i < args.len() {
            assert(args.push(a)[i] == args[i]);
        } else {
            assert(args.push(a)[i] == a);
        }
    }
}

/// The report for a parse error: the command line, then a caret under the
/// offending byte and the error's message.
pub fn format_parse_error(error: CommandParseError, command: &[u8]) -> (r: Vec<u8>)
    ensures
        r@ == spec_format_parse_error(error, command@),
{
    let mut out: Vec<u8> = Vec::new();
    push_bytes(&mut out, command);
    out.push(10);
    let ghost prefix = command@ + seq![10u8];
    proof {
        assert(out@ =~= prefix);
    }
    match error {
        CommandParseError::InvalidCommandName(i) => {
            push_caret(&mut out, i);
            push_bytes(&mut out, " invalid command name".as_bytes());
        },
        CommandParseError::CommandNotFound(i) => {
            push_caret(&mut out, i);
            push_bytes(&mut out, " command not found".as_bytes());
        },
        CommandParseError::InvalidSwitchOrOption(i) => {
            let count = if i >= 1 {
                i - 1
            } else {
                0
            };
            push_caret(&mut out, count);
            proof {
                assert(spec_caret_line(count + 1) =~= spec_caret_line(spec_error_width(error)));
            }
            push_bytes(&mut out, " invalid switch or option".as_bytes());
        },
        CommandParseError::InvalidOptionValue(i) => {
            push_caret(&mut out, i);
            push_bytes(&mut out, " invalid option value".as_bytes());
        },
        CommandParseError::UnterminatedArgument(i) => {
            push_caret(&mut out, i);
            push_bytes(&mut out, " unterminated argument".as_bytes());
        },
    }
    proof {
        assert(out@ =~= spec_format_parse_error(error, command@));
    }
    out
}

impl CommandManager {
    /// Parses a command text as `parse` does; on failure the formatted error
    /// report replaces the output. Executing the resolved command is the
    /// caller's business.
    pub fn eval(&mut self, command: &[u8]) -> (r: Result<(usize, bool), CommandParseError>)
        requires
            old(self).wf(),
        ensures
            final(self).wf(),
            final(self).spec_commands() == old(self).spec_commands(),
            final(self).spec_history() == old(self).spec_history(),
            match spec_parse(command@, old(self).spec_commands()) {
                Ok(outcome) => {
                    &&& r is Ok
                    &&& r->Ok_0.0 == outcome.0
                    &&& r->Ok_0.1 == outcome.1
                    &&& final(self).spec_parsed_args().spec_texts() == outcome.2
                    &&& final(self).spec_parsed_args().spec_args() == outcome.3
                    &&& final(self).spec_output_text() == old(self).spec_output_text()
                },
                Err(e) => r == Err::<(usize, bool), CommandParseError>(e) && final(self).spec_output_text() == spec_format_parse_error(e, command@),
            },
    {
        match self.parse(command) {
            Ok(parsed) => Ok(parsed),
            Err(error) => {
                let message = format_parse_error(error, command);
                self.output.clear();
                self.output.write_str(message.as_slice());
                proof {
                    assert(self.spec_output_text() =~= spec_format_parse_error(
                        error,
                        command@,
                    ));
                }
                Err(error)
            },
        }
    }
}

/// The report for a parse failure inside any text: the message, then the
/// text split at the failing byte with a marker between the halves.
pub open spec fn spec_parsing_error(message: Seq<u8>, text: Seq<u8>, error_index: int) -> Seq<u8> {
    let before = text.take(error_index);
    let after = text.skip(error_index);
    if before.len() == 0 && after.len() == 0 {
        message + " at ''".spec_bytes()
    } else if after.len() == 0 {
        message + " at '".spec_bytes() + before + "' <- here".spec_bytes()
    } else if before.len() == 0 {
        message + " at here -> '".spec_bytes() + after + "'".spec_bytes()
    } else {
        message + " at '".spec_bytes() + before + "' <- here '".spec_bytes() + after
            + "'".spec_bytes()
    }
}

/// Formats a parse failure at a byte index of some text, for display.
pub fn parsing_error(message: &[u8], text: &[u8], error_index: usize) -> (r: Vec<u8>)
    requires
        error_index <= text@.len(),
    ensures
        r@ == spec_parsing_error(message@, text@, error_index as int),
{
    let before = vstd::slice::slice_subrange(text, 0, error_index);
    let after = vstd::slice::slice_subrange(text, error_index, text.len());
    let mut r: Vec<u8> = Vec::new();
    push_bytes(&mut r, message);
    if before.len() == 0 && after.len() == 0 {
        push_bytes(&mut r, " at ''".as_bytes());
    } else if after.len() == 0 {
        push_bytes(&mut r, " at '".as_bytes());
        push_bytes(&mut r, before);
        push_bytes(&mut r, "' <- here".as_bytes());
    } else if before.len() == 0 {
        push_bytes(&mut r, " at here -> '".as_bytes());
        push_bytes(&mut r, after);
        push_bytes(&mut r, "'".as_bytes());
    } else {
        push_bytes(&mut r, " at '".as_bytes());
        push_bytes(&mut r, before);
        push_bytes(&mut r, "' <- here '".as_bytes());
        push_bytes(&mut r, after);
        push_bytes(&mut r, "'".as_bytes());
    }
    proof {
        assert(r@ =~= spec_parsing_error(message@, text@, error_index as int));
    }
    r
}

} // verus!
