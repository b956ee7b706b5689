//! Machine-identity providers: which identifiers a provider keeps from
//! what the operating system reports (file contents on Linux, command
//! output on Windows).

use vstd::prelude::*;

use crate::text::{
    chars_of, contains, contains_char, find_char, first_char_index, has_utf8_len,
    lemma_first_char_index, lines_spec, split_lines, split_words, starts_with, starts_with_spec,
    contains_spec, string_of, texts, utf8_len, words_spec,
};
use crate::util::{str_trim, trim_spec};

verus! {

/// A text that may be missing, as a spec value.
pub open spec fn text_view(o: Option<&str>) -> Option<Seq<char>> {
    match o {
        Some(s) => Some(s@),
        None => None,
    }
}

/// An owned text that may be missing, as a spec value.
pub open spec fn string_view(o: Option<String>) -> Option<Seq<char>> {
    match o {
        Some(s) => Some(s@),
        None => None,
    }
}

/// `ids` with `v` appended when there is one.
pub open spec fn push_found(ids: Seq<Seq<char>>, v: Option<Seq<char>>) -> Seq<Seq<char>> {
    match v {
        Some(x) => ids.push(x),
        None => ids,
    }
}

/// The identifier in a file's contents: the trimmed text, unless it is
/// empty or, where `reject_none`, the word `None`.
pub open spec fn file_identifier_spec(contents: Seq<char>, reject_none: bool) -> Option<Seq<char>> {
    let t = trim_spec(contents);
    if t.len() == 0 || (reject_none && t == "None"@) {
        None
    } else {
        Some(t)
    }
}

/// What a line of command output or of `/proc/cpuinfo` is searched for.
#[derive(Clone, Copy)]
pub enum LineRule {
    /// A `Serial` or `model name` line of `/proc/cpuinfo`: the field after
    /// the first colon, trimmed, when not empty.
    CpuInfo,
    /// A registry line naming `MachineGuid`: its last word, when the line
    /// has at least three words and that word is GUID-shaped.
    MachineGuid,
    /// A line whose trimmed text is GUID-shaped.
    Uuid,
    /// A line whose trimmed text is not empty.
    NonEmpty,
}

/// GUID-shaped: 36 bytes of UTF-8 holding a hyphen.
pub open spec fn guid_shaped(t: Seq<char>) -> bool {
    utf8_len(t) == 36 && t.contains('-')
}

/// The value that `rule` finds on one line, if any.
pub open spec fn line_value(rule: LineRule, line: Seq<char>) -> Option<Seq<char>> {
    match rule {
        LineRule::CpuInfo => {
            if starts_with_spec(line, "Serial"@) || starts_with_spec(line, "model name"@) {
                let p = first_char_index(line, ':');
                if p < line.len() {
                    let rest = line.subrange(p + 1, line.len() as int);
                    let v = trim_spec(rest.subrange(0, first_char_index(rest, ':')));
                    if v.len() > 0 {
                        Some(v)
                    } else {
                        None
                    }
                } else {
                    None
                }
            } else {
                None
            }
        },
        LineRule::MachineGuid => {
            let w = words_spec(line);
            if contains_spec(line, "MachineGuid"@) && w.len() >= 3 && guid_shaped(w.last()) {
                Some(w.last())
            } else {
                None
            }
        },
        LineRule::Uuid => {
            let t = trim_spec(line);
            if guid_shaped(t) {
                Some(t)
            } else {
                None
            }
        },
        LineRule::NonEmpty => {
            let t = trim_spec(line);
            if t.len() > 0 {
                Some(t)
            } else {
                None
            }
        },
    }
}

/// The value that `rule` finds on the first line where it finds one.
pub open spec fn first_value(lines: Seq<Seq<char>>, rule: LineRule) -> Option<Seq<char>>
    decreases lines.len(),
{
    if lines.len() == 0 {
        None
    } else if line_value(rule, lines[0]) is Some {
        line_value(rule, lines[0])
    } else {
        first_value(lines.drop_first(), rule)
    }
}

/// The lines after the first (`lines().skip(1)`).
pub open spec fn after_first(lines: Seq<Seq<char>>) -> Seq<Seq<char>> {
    if lines.len() == 0 {
        lines
    } else {
        lines.drop_first()
    }
}

/// The identifier in a file's contents, as `file_identifier_spec` states.
pub fn file_identifier(contents: &str, reject_none: bool) -> (r: Option<String>)
    ensures
        string_view(r) == file_identifier_spec(contents@, reject_none),
{
    let t = str_trim(contents);
    if t.is_empty() {
        return None;
    }
    if reject_none && t.to_owned() == "None".to_owned() {
        return None;
    }
    Some(t.to_owned())
}

/// The value that `rule` finds on one line, as `line_value` states.
pub fn find_line_value(rule: LineRule, line: &str) -> (r: Option<String>)
    ensures
        string_view(r) == line_value(rule, line@),
{
    match rule {
        LineRule::CpuInfo => {
            if starts_with(line, "Serial") || starts_with(line, "model name") {
                let v = chars_of(line);
                let p = find_char(&v, 0, ':');
                proof {
                    assert(v@.subrange(0, v@.len() as int) =~= v@);
                    lemma_first_char_index(v@, ':');
                }
                if p < v.len() {
                    let ghost rest = v@.subrange(p + 1, v@.len() as int);
                    let q = find_char(&v, p + 1, ':');
                    proof {
                        lemma_first_char_index(rest, ':');
                    }
                    let field = string_of(&v, p + 1, p + 1 + q);
                    proof {
                        assert(field@ =~= rest.subrange(0, q as int));
                    }
                    let t = str_trim(field.as_str());
                    if !t.is_empty() {
                        Some(t.to_owned())
                    } else {
                        None
                    }
                } else {
                    None
                }
            } else {
                None
            }
        },
        LineRule::MachineGuid => {
            if !contains(line, "MachineGuid") {
                return None;
            }
            let words = split_words(line);
            let n = words.len();
            if n < 3 {
                return None;
            }
            let last = words[n - 1].as_str();
            if has_utf8_len(last, 36) && contains_char(last, '-') {
                Some(last.to_owned())
            } else {
                None
            }
        },
        LineRule::Uuid => {
            let t = str_trim(line);
            if has_utf8_len(t, 36) && contains_char(t, '-') {
                Some(t.to_owned())
            } else {
                None
            }
        },
        LineRule::NonEmpty => {
            let t = str_trim(line);
            if !t.is_empty() {
                Some(t.to_owned())
            } else {
                None
            }
        },
    }
}

/// Searching from line `k` on: the value of line `k` when it has one,
/// else the search from line `k + 1`.
proof fn lemma_first_value_step(lines: Seq<Seq<char>>, k: int, rule: LineRule)
    requires
        0 <= k < lines.len(),
    ensures
        line_value(rule, lines[k]) is Some ==> first_value(
            lines.subrange(k, lines.len() as int),
            rule,
        ) == line_value(rule, lines[k]),
        line_value(rule, lines[k]) is None ==> first_value(
            lines.subrange(k, lines.len() as int),
            rule,
        ) == first_value(lines.subrange(k + 1, lines.len() as int), rule),
{
    let t = lines.subrange(k, lines.len() as int);
    assert(t[0] == lines[k]);
    assert(t.drop_first() =~= lines.subrange(k + 1, lines.len() as int));
}

/// The value that `rule` finds on the first of `lines[from..]` where it
/// finds one.
fn first_line_value(lines: &Vec<String>, from: usize, rule: LineRule, Ghost(ls): Ghost<
    Seq<Seq<char>>,
>) -> (r: Option<String>)
    requires
        lines@.len() == ls.len(),
        forall|i: int| 0 <= i < ls.len() ==> #[trigger] lines@[i]@ == ls[i],
        from <= ls.len(),
    ensures
        string_view(r) == first_value(ls.subrange(from as int, ls.len() as int), rule),
{
    let mut k = from;
    while k < lines.len()
        invariant
            lines@.len() == ls.len(),
            forall|i: int| 0 <= i < ls.len() ==> #[trigger] lines@[i]@ == ls[i],
            from <= k <= ls.len(),
            first_value(ls.subrange(from as int, ls.len() as int), rule) == first_value(
                ls.subrange(k as int, ls.len() as int),
                rule,
            ),
        decreases ls.len() - k,
    {
        let r = find_line_value(rule, lines[k].as_str());
        proof {
            lemma_first_value_step(ls, k as int, rule);
        }
        if r.is_some() {
            return r;
        }
        k = k + 1;
    }
    proof {
        assert(ls.subrange(k as int, ls.len() as int).len() == 0);
    }
    None
}

/// The value that `rule` finds in a text: on its first line where it finds
/// one, or, with `skip_header`, on the first such line after the first.
pub fn find_value(text: &str, rule: LineRule, skip_header: bool) -> (r: Option<String>)
    ensures
        !skip_header ==> string_view(r) == first_value(lines_spec(text@), rule),
        skip_header ==> string_view(r) == first_value(after_first(lines_spec(text@)), rule),
{
    let lines = split_lines(text);
    let ghost ls = lines_spec(text@);
    let from: usize = if skip_header && lines.len() > 0 {
        1
    } else {
        0
    };
    proof {
        assert(ls.subrange(0, ls.len() as int) =~= ls);
        if ls.len() > 0 {
            assert(ls.subrange(1, ls.len() as int) =~= ls.drop_first());
        }
    }
    first_line_value(&lines, from, rule, Ghost(ls))
}

/// The identifiers that a Linux machine gives: `/etc/machine-id` when not
/// empty, the SMBIOS product UUID and the board serial when neither empty
/// nor `None`, and the first `Serial` or `model name` value of
/// `/proc/cpuinfo`; each trimmed, in that order, each only where it was read.
pub open spec fn linux_identifiers(
    machine_id: Option<Seq<char>>,
    product_uuid: Option<Seq<char>>,
    board_serial: Option<Seq<char>>,
    cpuinfo: Option<Seq<char>>,
) -> Seq<Seq<char>> {
    let a = push_found(
        Seq::empty(),
        match machine_id {
            Some(x) => file_identifier_spec(x, false),
            None => None,
        },
    );
    let b = push_found(
        a,
        match product_uuid {
            Some(x) => file_identifier_spec(x, true),
            None => None,
        },
    );
    let c = push_found(
        b,
        match board_serial {
            Some(x) => file_identifier_spec(x, true),
            None => None,
        },
    );
    push_found(
        c,
        match cpuinfo {
            Some(x) => first_value(lines_spec(x), LineRule::CpuInfo),
            None => None,
        },
    )
}

/// The identifiers that a Windows machine gives: the `MachineGuid` of the
/// registry query, the SMBIOS UUID and the processor id, each from the
/// output of the command that reports it, where it ran and succeeded.
pub open spec fn windows_identifiers(
    registry: Option<Seq<char>>,
    csproduct: Option<Seq<char>>,
    processor: Option<Seq<char>>,
) -> Seq<Seq<char>> {
    let a = push_found(
        Seq::empty(),
        match registry {
            Some(x) => first_value(lines_spec(x), LineRule::MachineGuid),
            None => None,
        },
    );
    let b = push_found(
        a,
        match csproduct {
            Some(x) => first_value(after_first(lines_spec(x)), LineRule::Uuid),
            None => None,
        },
    );
    push_found(
        b,
        match processor {
            Some(x) => first_value(after_first(lines_spec(x)), LineRule::NonEmpty),
            None => None,
        },
    )
}

/// Append `v` to `ids` when there is one.
fn push_if_found(ids: &mut Vec<String>, v: Option<String>)
    ensures
        final(ids)@.len() == old(ids)@.len() + (if v is Some { 1int } else { 0 }),
        forall|i: int| 0 <= i < old(ids)@.len() ==> #[trigger] final(ids)@[i] == old(ids)@[i],
        v matches Some(x) ==> final(ids)@[old(ids)@.len() as int] == x,
{
    if let Some(x) = v {
        ids.push(x);
    }
}

proof fn lemma_push_found(before: Seq<String>, after: Seq<String>, v: Option<String>)
    requires
        after.len() == before.len() + (if v is Some { 1int } else { 0 }),
        forall|i: int| 0 <= i < before.len() ==> #[trigger] after[i] == before[i],
        v matches Some(x) ==> after[before.len() as int] == x,
    ensures
        texts(after) == push_found(texts(before), string_view(v)),
{
    assert(texts(after) =~= push_found(texts(before), string_view(v)));
}

/// Machine identity on Linux, from machine identifiers.
pub struct LinuxHSP {
    identifiers: Vec<String>,
}

impl LinuxHSP {
    /// The identifiers kept, in order.
    pub closed spec fn spec_identifiers(&self) -> Seq<Seq<char>> {
        texts(self.identifiers@)
    }

    /// The provider for what the machine's identity files held (`None`
    /// where a file could not be read), keeping what `linux_identifiers`
    /// states.
    pub fn new(
        machine_id: Option<&str>,
        product_uuid: Option<&str>,
        board_serial: Option<&str>,
        cpuinfo: Option<&str>,
    ) -> (r: Self)
        ensures
            r.spec_identifiers() == linux_identifiers(
                text_view(machine_id),
                text_view(product_uuid),
                text_view(board_serial),
                text_view(cpuinfo),
            ),
    {
        let mut ids: Vec<String> = Vec::new();
        let ghost s0 = ids@;
        let v = match machine_id {
            Some(x) => file_identifier(x, false),
            None => None,
        };
        push_if_found(&mut ids, v);
        proof { lemma_push_found(s0, ids@, v); }
        let ghost s1 = ids@;
        let v = match product_uuid {
            Some(x) => file_identifier(x, true),
            None => None,
        };
        push_if_found(&mut ids, v);
        proof { lemma_push_found(s1, ids@, v); }
        let ghost s2 = ids@;
        let v = match board_serial {
            Some(x) => file_identifier(x, true),
            None => None,
        };
        push_if_found(&mut ids, v);
        proof { lemma_push_found(s2, ids@, v); }
        let ghost s3 = ids@;
        let v = match cpuinfo {
            Some(x) => find_value(x, LineRule::CpuInfo, false),
            None => None,
        };
        push_if_found(&mut ids, v);
        proof {
            lemma_push_found(s3, ids@, v);
            assert(texts(s0) =~= Seq::<Seq<char>>::empty());
        }
        LinuxHSP { identifiers: ids }
    }

    /// Whether any identifier was found.
    pub fn is_available(&self) -> (r: bool)
        ensures
            r == (self.spec_identifiers().len() > 0),
    {
        self.identifiers.len() > 0
    }

    /// The provider's name.
    pub fn provider_name(&self) -> (r: &'static str)
        ensures
            r@ == "Linux Machine ID"@,
    {
        "Linux Machine ID"
    }
}

/// Machine identity on Windows, from machine identifiers.
pub struct WindowsHSP {
    identifiers: Vec<String>,
}

impl WindowsHSP {
    /// The identifiers kept, in order.
    pub closed spec fn spec_identifiers(&self) -> Seq<Seq<char>> {
        texts(self.identifiers@)
    }

    /// The provider for the output of the registry query, of the SMBIOS
    /// UUID query and of the processor-id query (`None` where a command
    /// did not run or failed), keeping what `windows_identifiers` states.
    pub fn new(registry: Option<&str>, csproduct: Option<&str>, processor: Option<&str>) -> (r:
        Self)
        ensures
            r.spec_identifiers() == windows_identifiers(
                text_view(registry),
                text_view(csproduct),
                text_view(processor),
            ),
    {
        let mut ids: Vec<String> = Vec::new();
        let ghost s0 = ids@;
        let v = match registry {
            Some(x) => find_value(x, LineRule::MachineGuid, false),
            None => None,
        };
        push_if_found(&mut ids, v);
        proof { lemma_push_found(s0, ids@, v); }
        let ghost s1 = ids@;
        let v = match csproduct {
            Some(x) => find_value(x, LineRule::Uuid, true),
            None => None,
        };
        push_if_found(&mut ids, v);
        proof { lemma_push_found(s1, ids@, v); }
        let ghost s2 = ids@;
        let v = match processor {
            Some(x) => find_value(x, LineRule::NonEmpty, true),
            None => None,
        };
        push_if_found(&mut ids, v);
        proof {
            lemma_push_found(s2, ids@, v);
            assert(texts(s0) =~= Seq::<Seq<char>>::empty());
        }
        WindowsHSP { identifiers: ids }
    }

    /// Whether any identifier was found.
    pub fn is_available(&self) -> (r: bool)
        ensures
            r == (self.spec_identifiers().len() > 0),
    {
        self.identifiers.len() > 0
    }

    /// The provider's name.
    pub fn provider_name(&self) -> (r: &'static str)
        ensures
            r@ == "Windows Machine GUID"@,
    {
        "Windows Machine GUID"
    }
}

} // verus!
