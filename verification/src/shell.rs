//! Shell and command-line helpers: output sanitizing, quote-aware
//! tokenizing, object-id and password checks.

use vstd::prelude::*;
use vstd::string::StringSliceAdditionalSpecFns;

use crate::text::{join_from, join_spec, text_eq, texts};
use crate::util::{hex_object_id_spec, is_unicode_whitespace};
use crate::vault::ObjectMeta;

verus! {

/// `s.push(c)`: appends the character.
#[verifier::external_body]
pub(crate) fn string_push(s: &mut String, c: char)
    ensures
        final(s)@ == old(s)@.push(c),
{
    s.push(c);
}

/// Characters kept on a terminal: newline, carriage return, tab, printable
/// ASCII, and every non-ASCII character that is not a C1 control.
pub open spec fn terminal_safe(c: char) -> bool {
    let v = c as u32;
    v == 10 || v == 13 || v == 9 || (0x20 <= v <= 0x7E) || (v > 0x7F && !(0x80 <= v <= 0x9F))
}

/// The characters of `s` that are safe on a terminal, in order.
pub open spec fn sanitize_spec(s: Seq<char>) -> Seq<char> {
    s.filter(|c: char| terminal_safe(c))
}

/// Strip terminal control characters (and so every ANSI escape
/// introducer) from text, keeping printable characters and safe
/// whitespace.
pub fn sanitize_terminal_output(text: &str) -> (r: String)
    ensures
        r@ == sanitize_spec(text@),
{
    broadcast use vstd::string::axiom_spec_iter;
    let mut out = String::new();
    let chars = text.chars();
    for c in it: chars
        invariant
            it.seq() == text@,
            0 <= it.index() <= text@.len(),
            out@ == sanitize_spec(it.seq().subrange(0, it.index())),
    {
        let v = c as u32;
        let keep = v == 10 || v == 13 || v == 9 || (0x20 <= v && v <= 0x7E) || (v > 0x7F && !(0x80 <= v && v <= 0x9F));
        proof {
            let s = it.seq().subrange(0, it.index() + 1);
            assert(s.drop_last() =~= it.seq().subrange(0, it.index()));
            reveal_with_fuel(Seq::filter, 2);
        }
        if keep {
            string_push(&mut out, c);
        }
    }
    proof {
        assert(text@.subrange(0, text@.len() as int) =~= text@);
    }
    out
}

/// Whether a character is Unicode `White_Space` (`char::is_whitespace`).
pub fn is_whitespace_char(c: char) -> (r: bool)
    ensures
        r == is_unicode_whitespace(c),
{
    let v = c as u32;
    (9 <= v && v <= 13) || v == 32 || v == 0x85 || v == 0xA0 || v == 0x1680 || (0x2000 <= v && v
        <= 0x200A) || v == 0x2028 || v == 0x2029 || v == 0x202F || v == 0x205F || v == 0x3000
}

/// One step of the tokenizer over (tokens, current token, inside quotes):
/// a quote toggles quoting and is dropped; whitespace outside quotes ends
/// a non-empty token; any other character joins the current token.
pub open spec fn tokenize_step(st: (Seq<Seq<char>>, Seq<char>, bool), c: char) -> (
    Seq<Seq<char>>,
    Seq<char>,
    bool,
) {
    if c == '"' {
        (st.0, st.1, !st.2)
    } else if is_unicode_whitespace(c) && !st.2 {
        if st.1.len() > 0 {
            (st.0.push(st.1), Seq::empty(), st.2)
        } else {
            st
        }
    } else {
        (st.0, st.1.push(c), st.2)
    }
}

/// Tokenizer state after the characters of `s`.
pub open spec fn tokenize_state(s: Seq<char>) -> (Seq<Seq<char>>, Seq<char>, bool)
    decreases s.len(),
{
    if s.len() == 0 {
        (Seq::empty(), Seq::empty(), false)
    } else {
        tokenize_step(tokenize_state(s.drop_last()), s.last())
    }
}

/// Tokens of a shell line: whitespace-separated, with double quotes
/// grouping words (quotes themselves dropped); an unfinished token at the
/// end counts.
pub open spec fn tokenize_spec(s: Seq<char>) -> Seq<Seq<char>> {
    let st = tokenize_state(s);
    if st.1.len() > 0 {
        st.0.push(st.1)
    } else {
        st.0
    }
}

/// Number of double quotes in `s`.
pub open spec fn quote_count(s: Seq<char>) -> nat
    decreases s.len(),
{
    if s.len() == 0 {
        0
    } else {
        quote_count(s.drop_last()) + if s.last() == '"' {
            1nat
        } else {
            0nat
        }
    }
}

/// The characters of `s` that belong to some word: every character but
/// double quotes and the whitespace that stands outside quotes (where an
/// even number of double quotes comes before it).
pub open spec fn word_chars(s: Seq<char>) -> Seq<char>
    decreases s.len(),
{
    if s.len() == 0 {
        Seq::empty()
    } else {
        let p = s.drop_last();
        let c = s.last();
        if c != '"' && !(is_unicode_whitespace(c) && quote_count(p) % 2 == 0) {
            word_chars(p).push(c)
        } else {
            word_chars(p)
        }
    }
}

/// The words of a list, one after another.
pub open spec fn concat_words(ws: Seq<Seq<char>>) -> Seq<char>
    decreases ws.len(),
{
    if ws.len() == 0 {
        Seq::empty()
    } else {
        concat_words(ws.drop_last()) + ws.last()
    }
}

proof fn lemma_tokenize_state_words(s: Seq<char>)
    ensures
        concat_words(tokenize_state(s).0) + tokenize_state(s).1 == word_chars(s),
        tokenize_state(s).2 == (quote_count(s) % 2 == 1),
        forall|k: int|
            0 <= k < tokenize_state(s).0.len() ==> (#[trigger] tokenize_state(s).0[k]).len() > 0
                && !tokenize_state(s).0[k].contains('"'),
        !tokenize_state(s).1.contains('"'),
    decreases s.len(),
{
    if s.len() > 0 {
        let p = s.drop_last();
        let c = s.last();
        lemma_tokenize_state_words(p);
        let st = tokenize_state(p);
        if c == '"' {
        } else if is_unicode_whitespace(c) && !st.2 {
            if st.1.len() > 0 {
                assert(st.0.push(st.1).drop_last() =~= st.0);
                assert(concat_words(st.0.push(st.1)) + Seq::<char>::empty() =~= concat_words(st.0)
                    + st.1);
                assert forall|k: int| 0 <= k < st.0.push(st.1).len() implies (#[trigger] st.0.push(
                    st.1,
                )[k]).len() > 0 && !st.0.push(st.1)[k].contains('"') by {
                    if k < st.0.len() {
                        assert(st.0.push(st.1)[k] == st.0[k]);
                    }
                }
                assert(!Seq::<char>::empty().contains('"'));
            }
        } else {
            assert(concat_words(st.0) + st.1.push(c) =~= (concat_words(st.0) + st.1).push(c));
            assert(!st.1.push(c).contains('"')) by {
                if st.1.push(c).contains('"') {
                    let j = choose|j: int| 0 <= j < st.1.push(c).len() && st.1.push(c)[j] == '"';
                    if j < st.1.len() {
                        assert(st.1[j] == '"');
                    }
                }
            }
        }
    }
}

/// What tokenizing keeps of a line: the tokens, one after another, are
/// exactly the line's characters without its double quotes and without
/// the whitespace outside quotes; every token is non-empty and holds no
/// double quote.
pub proof fn lemma_tokens_are_the_words(s: Seq<char>)
    ensures
        concat_words(tokenize_spec(s)) == word_chars(s),
        forall|k: int|
            0 <= k < tokenize_spec(s).len() ==> (#[trigger] tokenize_spec(s)[k]).len() > 0
                && !tokenize_spec(s)[k].contains('"'),
{
    lemma_tokenize_state_words(s);
    let st = tokenize_state(s);
    if st.1.len() > 0 {
        assert(st.0.push(st.1).drop_last() =~= st.0);
        assert forall|k: int| 0 <= k < st.0.push(st.1).len() implies (#[trigger] st.0.push(
            st.1,
        )[k]).len() > 0 && !st.0.push(st.1)[k].contains('"') by {
            if k < st.0.len() {
                assert(st.0.push(st.1)[k] == st.0[k]);
            }
        }
    } else {
        assert(concat_words(st.0) + st.1 =~= concat_words(st.0));
    }
}

/// Split a shell line into tokens, as `tokenize_spec` states.
pub fn tokenize_shell_input(input: &str) -> (r: Vec<String>)
    ensures
        r@.len() == tokenize_spec(input@).len(),
        forall|i: int| 0 <= i < r@.len() ==> #[trigger] r@[i]@ == tokenize_spec(input@)[i],
        concat_words(texts(r@)) == word_chars(input@),
        forall|i: int| 0 <= i < r@.len() ==> (#[trigger] r@[i])@.len() > 0 && !r@[i]@.contains('"'),
{
    broadcast use vstd::string::axiom_spec_iter;
    let mut tokens: Vec<String> = Vec::new();
    let mut current = String::new();
    let mut in_quotes = false;
    let chars = input.chars();
    for c in it: chars
        invariant
            it.seq() == input@,
            0 <= it.index() <= input@.len(),
            tokens@.len() == tokenize_state(input@.subrange(0, it.index())).0.len(),
            forall|i: int|
                0 <= i < tokens@.len() ==> #[trigger] tokens@[i]@ == tokenize_state(
                    input@.subrange(0, it.index()),
                ).0[i],
            current@ == tokenize_state(input@.subrange(0, it.index())).1,
            in_quotes == tokenize_state(input@.subrange(0, it.index())).2,
    {
        proof {
            let s = input@.subrange(0, it.index() + 1);
            assert(s.drop_last() =~= input@.subrange(0, it.index()));
        }
        if c == '"' {
            in_quotes = !in_quotes;
        } else if is_whitespace_char(c) && !in_quotes {
            if !current.as_str().is_empty() {
                let t = current.clone();
                tokens.push(t);
                current = String::new();
            }
        } else {
            string_push(&mut current, c);
        }
    }
    proof {
        assert(input@.subrange(0, input@.len() as int) =~= input@);
    }
    if !current.as_str().is_empty() {
        tokens.push(current);
    }
    proof {
        lemma_tokens_are_the_words(input@);
        assert(texts(tokens@) =~= tokenize_spec(input@));
        assert forall|i: int| 0 <= i < tokens@.len() implies (#[trigger] tokens@[i])@.len() > 0
            && !tokens@[i]@.contains('"') by {
            assert(tokens@[i]@ == tokenize_spec(input@)[i]);
        }
    }
    tokens
}

/// Parse an object id for the command line: the id, or the message
/// "ID must be 32 hex characters" whenever `parse_hex_object_id` fails.
pub fn parse_object_id(s: &str) -> (r: Result<[u8; 16], &'static str>)
    ensures
        r is Ok <==> crate::util::hex_object_id_spec(s@) is Some,
        r matches Ok(id) ==> crate::util::hex_object_id_spec(s@) == Some(id@),
        r matches Err(m) ==> m@ == "ID must be 32 hex characters"@,
{
    match crate::util::parse_hex_object_id(s) {
        Ok(id) => Ok(id),
        Err(_) => Err("ID must be 32 hex characters"),
    }
}

/// Check an entered password: "Password cannot be empty" when empty,
/// "Password must be at least 8 characters" when shorter than 8 bytes.
pub fn check_password(password: &str) -> (r: Result<(), &'static str>)
    ensures
        password.spec_bytes().len() == 0 ==> (r matches Err(m) && m@
            == "Password cannot be empty"@),
        0 < password.spec_bytes().len() < 8 ==> (r matches Err(m) && m@
            == "Password must be at least 8 characters"@),
        r is Ok <==> password.spec_bytes().len() >= 8,
{
    let n = password.as_bytes().len();
    if n == 0 {
        return Err("Password cannot be empty");
    }
    if n < 8 {
        return Err("Password must be at least 8 characters");
    }
    Ok(())
}

/// Check a confirmation: "Passwords do not match" unless it equals the
/// password.
pub fn check_confirmation(password: &str, confirm: &str) -> (r: Result<(), &'static str>)
    ensures
        r is Ok <==> password.spec_bytes() == confirm.spec_bytes(),
        r matches Err(m) ==> m@ == "Passwords do not match"@,
{
    if crate::layout::bytes_eq(password.as_bytes(), confirm.as_bytes()) {
        Ok(())
    } else {
        Err("Passwords do not match")
    }
}

/// Unicode lowercase mapping of a text (what `str::to_lowercase` gives).
pub uninterp spec fn lowercase_spec(s: Seq<char>) -> Seq<char>;

/// `s.to_lowercase()`: the text under Unicode's lowercase mapping.
#[verifier::external_body]
fn str_to_lowercase(s: &str) -> (r: String)
    ensures
        r@ == lowercase_spec(s@),
{
    s.to_lowercase()
}

/// What the first word of a shell line asks for.
#[derive(Clone, Copy, Debug)]
pub enum CommandWord {
    /// `ls`, `list`
    List,
    /// `cat`, `read`
    Cat,
    /// `rm`, `del`, `delete`
    Remove,
    /// `add`
    Add,
    /// `info`, `status`
    Info,
    /// `help`, `?`
    Help,
    /// `vacuum`, `compact`
    Vacuum,
    /// `clear`, `cls`
    Clear,
    /// `exit`, `quit`, `q`
    Exit,
    /// Anything else.
    Unknown,
}

/// The command a lowercased first word names.
pub open spec fn command_word(c: Seq<char>) -> CommandWord {
    if c == "ls"@ || c == "list"@ {
        CommandWord::List
    } else if c == "cat"@ || c == "read"@ {
        CommandWord::Cat
    } else if c == "rm"@ || c == "del"@ || c == "delete"@ {
        CommandWord::Remove
    } else if c == "add"@ {
        CommandWord::Add
    } else if c == "info"@ || c == "status"@ {
        CommandWord::Info
    } else if c == "help"@ || c == "?"@ {
        CommandWord::Help
    } else if c == "vacuum"@ || c == "compact"@ {
        CommandWord::Vacuum
    } else if c == "clear"@ || c == "cls"@ {
        CommandWord::Clear
    } else if c == "exit"@ || c == "quit"@ || c == "q"@ {
        CommandWord::Exit
    } else {
        CommandWord::Unknown
    }
}

/// The command that a first word names, whatever its case.
pub fn classify_command(word: &str) -> (r: CommandWord)
    ensures
        r == command_word(lowercase_spec(word@)),
{
    let lower = str_to_lowercase(word);
    let c = lower.as_str();
    if text_eq(c, "ls") || text_eq(c, "list") {
        CommandWord::List
    } else if text_eq(c, "cat") || text_eq(c, "read") {
        CommandWord::Cat
    } else if text_eq(c, "rm") || text_eq(c, "del") || text_eq(c, "delete") {
        CommandWord::Remove
    } else if text_eq(c, "add") {
        CommandWord::Add
    } else if text_eq(c, "info") || text_eq(c, "status") {
        CommandWord::Info
    } else if text_eq(c, "help") || text_eq(c, "?") {
        CommandWord::Help
    } else if text_eq(c, "vacuum") || text_eq(c, "compact") {
        CommandWord::Vacuum
    } else if text_eq(c, "clear") || text_eq(c, "cls") {
        CommandWord::Clear
    } else if text_eq(c, "exit") || text_eq(c, "quit") || text_eq(c, "q") {
        CommandWord::Exit
    } else {
        CommandWord::Unknown
    }
}

/// A shell line, decided.
pub enum ShellCommand {
    /// No words.
    Empty,
    /// List the objects.
    List,
    /// Show an object: its id, or `None` when the word is not one.
    Cat(Option<[u8; 16]>),
    /// `cat` without an id.
    CatUsage,
    /// Delete an object: its id, or `None` when the word is not one.
    Remove(Option<[u8; 16]>),
    /// `rm` without an id.
    RemoveUsage,
    /// Add the rest of the line as data.
    AddInline {
        /// Object type.
        object_type: String,
        /// Purpose.
        purpose: String,
        /// The remaining words joined with single spaces.
        data: String,
    },
    /// Add a file's contents.
    AddFile {
        /// Path of the file.
        path: String,
        /// Object type.
        object_type: String,
        /// Purpose.
        purpose: String,
    },
    /// `add` with too few words.
    AddUsage,
    /// `add -f` with too few words.
    AddFileUsage,
    /// Show vault information.
    Info,
    /// Show the commands.
    Help,
    /// Compact the vault.
    Vacuum,
    /// Clear the screen.
    Clear,
    /// Lock and leave.
    Exit,
    /// A word that names no command.
    Unknown(String),
}

/// An object id that may be missing, as a spec value.
pub open spec fn id_view(o: Option<[u8; 16]>) -> Option<Seq<u8>> {
    match o {
        Some(id) => Some(id@),
        None => None,
    }
}

/// What the words `t` (at least one) of a shell line ask for: the command
/// that the first word names, whatever its case; `cat` and `rm` take an id
/// as their second word; `add` takes a type, a purpose and data (the rest
/// of the line, words joined by single spaces), or `-f`, a path, a type
/// and a purpose.
pub open spec fn shell_command_spec(t: Seq<Seq<char>>, r: ShellCommand) -> bool {
    match command_word(lowercase_spec(t[0])) {
        CommandWord::List => r is List,
        CommandWord::Cat => if t.len() < 2 {
            r is CatUsage
        } else {
            r matches ShellCommand::Cat(x) && id_view(x) == hex_object_id_spec(t[1])
        },
        CommandWord::Remove => if t.len() < 2 {
            r is RemoveUsage
        } else {
            r matches ShellCommand::Remove(x) && id_view(x) == hex_object_id_spec(t[1])
        },
        CommandWord::Add => if t.len() < 4 {
            r is AddUsage
        } else if t[1] == "-f"@ {
            if t.len() < 5 {
                r is AddFileUsage
            } else {
                r matches ShellCommand::AddFile { path, object_type, purpose } && path@ == t[2]
                    && object_type@ == t[3] && purpose@ == t[4]
            }
        } else {
            r matches ShellCommand::AddInline { object_type, purpose, data } && object_type@
                == t[1] && purpose@ == t[2] && data@ == join_spec(t.subrange(3, t.len() as int))
        },
        CommandWord::Info => r is Info,
        CommandWord::Help => r is Help,
        CommandWord::Vacuum => r is Vacuum,
        CommandWord::Clear => r is Clear,
        CommandWord::Exit => r is Exit,
        CommandWord::Unknown => r matches ShellCommand::Unknown(w) && w@ == t[0],
    }
}

/// The id in a word, or `None`.
fn id_of(word: &str) -> (r: Option<[u8; 16]>)
    ensures
        id_view(r) == hex_object_id_spec(word@),
{
    match parse_object_id(word) {
        Ok(id) => Some(id),
        Err(_) => None,
    }
}

/// Decide what the words of a shell line ask for, as
/// `shell_command_spec` states (`Empty` for no words).
pub fn parse_shell_command(tokens: &Vec<String>) -> (r: ShellCommand)
    ensures
        tokens@.len() == 0 ==> r is Empty,
        tokens@.len() > 0 ==> shell_command_spec(texts(tokens@), r),
{
    let n = tokens.len();
    if n == 0 {
        return ShellCommand::Empty;
    }
    let ghost t = texts(tokens@);
    let w = classify_command(tokens[0].as_str());
    match w {
        CommandWord::List => ShellCommand::List,
        CommandWord::Cat => {
            if n < 2 {
                ShellCommand::CatUsage
            } else {
                ShellCommand::Cat(id_of(tokens[1].as_str()))
            }
        },
        CommandWord::Remove => {
            if n < 2 {
                ShellCommand::RemoveUsage
            } else {
                ShellCommand::Remove(id_of(tokens[1].as_str()))
            }
        },
        CommandWord::Add => {
            if n < 4 {
                ShellCommand::AddUsage
            } else if text_eq(tokens[1].as_str(), "-f") {
                if n < 5 {
                    ShellCommand::AddFileUsage
                } else {
                    ShellCommand::AddFile {
                        path: tokens[2].clone(),
                        object_type: tokens[3].clone(),
                        purpose: tokens[4].clone(),
                    }
                }
            } else {
                let data = join_from(tokens, 3);
                proof {
                    assert(texts(tokens@.subrange(3, n as int)) =~= t.subrange(3, n as int));
                }
                ShellCommand::AddInline {
                    object_type: tokens[1].clone(),
                    purpose: tokens[2].clone(),
                    data,
                }
            }
        },
        CommandWord::Info => ShellCommand::Info,
        CommandWord::Help => ShellCommand::Help,
        CommandWord::Vacuum => ShellCommand::Vacuum,
        CommandWord::Clear => ShellCommand::Clear,
        CommandWord::Exit => ShellCommand::Exit,
        CommandWord::Unknown => ShellCommand::Unknown(tokens[0].clone()),
    }
}

/// Largest object that `cat` shows (1 MiB).
pub const MAX_CAT_SIZE: u64 = 1048576;

/// Whether `cat` shows an object.
#[derive(Clone, Copy, Debug)]
pub enum CatCheck {
    /// Shown; its size.
    Show(u64),
    /// Over `MAX_CAT_SIZE`; its size.
    TooLarge(u64),
    /// No object has the id.
    NotFound,
}

/// Index of the first listed object with id `id`, or -1.
pub open spec fn first_meta_index(objs: Seq<ObjectMeta>, id: Seq<u8>) -> int
    decreases objs.len(),
{
    if objs.len() == 0 {
        -1
    } else if objs[0].object_id@ == id {
        0
    } else {
        let k = first_meta_index(objs.drop_first(), id);
        if k < 0 {
            -1
        } else {
            k + 1
        }
    }
}

/// Decide whether `cat` shows the object with id `id` among `objects`:
/// `NotFound` when none has it; else, for the first that has it,
/// `TooLarge` over `MAX_CAT_SIZE` and `Show` otherwise, with its size.
pub fn cat_check(objects: &Vec<ObjectMeta>, id: &[u8; 16]) -> (r: CatCheck)
    ensures
        ({
            let i = first_meta_index(objects@, id@);
            if i < 0 {
                r is NotFound
            } else if objects@[i].size > MAX_CAT_SIZE {
                r == CatCheck::TooLarge(objects@[i].size)
            } else {
                r == CatCheck::Show(objects@[i].size)
            }
        }),
{
    let mut k: usize = 0;
    proof {
        assert(objects@.subrange(0, objects@.len() as int) =~= objects@);
    }
    while k < objects.len()
        invariant
            k <= objects@.len(),
            first_meta_index(objects@, id@) == (if first_meta_index(
                objects@.subrange(k as int, objects@.len() as int),
                id@,
            ) < 0 {
                -1
            } else {
                first_meta_index(objects@.subrange(k as int, objects@.len() as int), id@) + k
            }),
        decreases objects@.len() - k,
    {
        let ghost rest = objects@.subrange(k as int, objects@.len() as int);
        proof {
            assert(rest.drop_first() =~= objects@.subrange(k + 1, objects@.len() as int));
            assert(rest[0] == objects@[k as int]);
        }
        if crate::layout::bytes_eq(&objects[k].object_id, id) {
            proof {
                assert(objects@[k as int].object_id@ == id@);
            }
            let size = objects[k].size;
            if size > MAX_CAT_SIZE {
                return CatCheck::TooLarge(size);
            } else {
                return CatCheck::Show(size);
            }
        }
        k = k + 1;
    }
    CatCheck::NotFound
}

} // verus!
