use vstd::prelude::*;

use crate::text::{
    chars_of, first_match_from, find_from, is_white_space, lemma_first_match_at,
    lemma_replaced_after_match, lemma_replaced_unmatched_prefix, lowercase, matches_at, owned,
    replaced, str_replace, str_trim, string_of, to_lowercase, trim_chars, trim_end, trim_start,
    trimmed,
};
use crate::utf16::{
    le_units, le_units_from, lemma_le_units_bytes, lemma_utf16_decode_encode, utf16_decode_lossy,
    utf16_to_string_lossy, utf16le_document,
};

verus! {

// ---------------------------------------------------------------------
// Escaping text for the task document
// ---------------------------------------------------------------------

/// The five characters that XML text escapes.
pub open spec fn is_special(c: char) -> bool {
    c == '&' || c == '<' || c == '>' || c == '"' || c == '\''
}

/// The entity that stands for a special character.
pub open spec fn entity(c: char) -> Seq<char> {
    if c == '&' {
        seq!['&', 'a', 'm', 'p', ';']
    } else if c == '<' {
        seq!['&', 'l', 't', ';']
    } else if c == '>' {
        seq!['&', 'g', 't', ';']
    } else if c == '"' {
        seq!['&', 'q', 'u', 'o', 't', ';']
    } else {
        seq!['&', 'a', 'p', 'o', 's', ';']
    }
}

/// `value` with `&`, `<`, `>`, `"` and `'` replaced by their entities, in
/// that order, each over the whole text.
pub open spec fn xml_escaped(value: Seq<char>) -> Seq<char> {
    replaced(
        replaced(
            replaced(
                replaced(replaced(value, seq!['&'], entity('&')), seq!['<'], entity('<')),
                seq!['>'],
                entity('>'),
            ),
            seq!['"'],
            entity('"'),
        ),
        seq!['\''],
        entity('\''),
    )
}

/// `value` with the entities for `<`, `>`, `"`, `'` and `&` replaced by
/// those characters, in that order, each over the whole text.
pub open spec fn xml_unescaped(value: Seq<char>) -> Seq<char> {
    replaced(
        replaced(
            replaced(
                replaced(replaced(value, entity('<'), seq!['<']), entity('>'), seq!['>']),
                entity('"'),
                seq!['"'],
            ),
            entity('\''),
            seq!['\''],
        ),
        entity('&'),
        seq!['&'],
    )
}

/// Escapes text for an XML document: `&`, `<`, `>`, `"` and `'` become
/// `&amp;`, `&lt;`, `&gt;`, `&quot;` and `&apos;`.
pub fn escape_xml_text(value: &str) -> (r: String)
    ensures
        r@ == xml_escaped(value@),
{
    proof {
        reveal_strlit("&");
        reveal_strlit("&amp;");
        reveal_strlit("<");
        reveal_strlit("&lt;");
        reveal_strlit(">");
        reveal_strlit("&gt;");
        reveal_strlit("\"");
        reveal_strlit("&quot;");
        reveal_strlit("'");
        reveal_strlit("&apos;");
    }
    let a = str_replace(value, "&", "&amp;");
    let b = str_replace(a.as_str(), "<", "&lt;");
    let c = str_replace(b.as_str(), ">", "&gt;");
    let d = str_replace(c.as_str(), "\"", "&quot;");
    let e = str_replace(d.as_str(), "'", "&apos;");
    assert("&"@ =~= seq!['&']);
    assert("&amp;"@ =~= entity('&'));
    assert("<"@ =~= seq!['<']);
    assert("&lt;"@ =~= entity('<'));
    assert(">"@ =~= seq!['>']);
    assert("&gt;"@ =~= entity('>'));
    assert("\""@ =~= seq!['"']);
    assert("&quot;"@ =~= entity('"'));
    assert("'"@ =~= seq!['\'']);
    assert("&apos;"@ =~= entity('\''));
    e
}

/// Reverses [`escape_xml_text`]: `&lt;`, `&gt;`, `&quot;`, `&apos;` and
/// `&amp;` become `<`, `>`, `"`, `'` and `&`, replaced in that order.
pub fn unescape_xml_text(value: &str) -> (r: String)
    ensures
        r@ == xml_unescaped(value@),
{
    proof {
        reveal_strlit("&");
        reveal_strlit("&amp;");
        reveal_strlit("<");
        reveal_strlit("&lt;");
        reveal_strlit(">");
        reveal_strlit("&gt;");
        reveal_strlit("\"");
        reveal_strlit("&quot;");
        reveal_strlit("'");
        reveal_strlit("&apos;");
    }
    assert("&"@ =~= seq!['&']);
    assert("&amp;"@ =~= entity('&'));
    assert("<"@ =~= seq!['<']);
    assert("&lt;"@ =~= entity('<'));
    assert(">"@ =~= seq!['>']);
    assert("&gt;"@ =~= entity('>'));
    assert("\""@ =~= seq!['"']);
    assert("&quot;"@ =~= entity('"'));
    assert("'"@ =~= seq!['\'']);
    assert("&apos;"@ =~= entity('\''));
    let a = str_replace(value, "&lt;", "<");
    let b = str_replace(a.as_str(), "&gt;", ">");
    let c = str_replace(b.as_str(), "&quot;", "\"");
    let d = str_replace(c.as_str(), "&apos;", "'");
    let e = str_replace(d.as_str(), "&amp;", "&");
    e
}


// ---------------------------------------------------------------------
// Unescaping undoes escaping
// ---------------------------------------------------------------------

/// `c` written as its entity when it is in `enc`, as itself otherwise.
pub open spec fn encode_char(c: char, enc: Set<char>) -> Seq<char> {
    if enc.contains(c) {
        entity(c)
    } else {
        seq![c]
    }
}

/// `s` with each character in `enc` written as its entity.
pub open spec fn encode_with(s: Seq<char>, enc: Set<char>) -> Seq<char>
    decreases s.len(),
{
    if s.len() == 0 {
        Seq::empty()
    } else {
        encode_char(s[0], enc) + encode_with(s.skip(1), enc)
    }
}

/// All five special characters.
pub open spec fn all_special() -> Set<char> {
    Set::empty().insert('&').insert('<').insert('>').insert('"').insert('\'')
}

proof fn lemma_encode_nothing(s: Seq<char>)
    ensures
        encode_with(s, Set::empty()) == s,
    decreases s.len(),
{
    if s.len() > 0 {
        lemma_encode_nothing(s.skip(1));
        assert(s =~= seq![s[0]] + s.skip(1));
    }
}

/// Entities of different characters differ within the shorter of them.
proof fn lemma_entities_differ(c: char, d: char)
    requires
        is_special(c),
        is_special(d),
        c != d,
    ensures
        exists|k: int| 0 <= k < entity(c).len() && k < entity(d).len() && entity(c)[k] != entity(d)[k],
{
    if (c == '&' && d == '\'') || (c == '\'' && d == '&') {
        assert(entity(c)[2] != entity(d)[2]);
    } else {
        assert(entity(c)[1] != entity(d)[1]);
    }
}

proof fn lemma_entity_shape(c: char)
    requires
        is_special(c),
    ensures
        entity(c).len() >= 4,
        entity(c)[0] == '&',
        forall|j: int| 1 <= j < entity(c).len() ==> !is_special(#[trigger] entity(c)[j]),
{
}

/// One escaping pass: replacing `x` by its entity in a text where the
/// characters of `enc` are already written as entities.
proof fn lemma_escape_pass(s: Seq<char>, enc: Set<char>, x: char)
    requires
        is_special(x),
        !enc.contains(x),
        forall|c: char| enc.contains(c) ==> is_special(c),
        x == '&' ==> enc == Set::<char>::empty(),
    ensures
        replaced(encode_with(s, enc), seq![x], entity(x)) == encode_with(s, enc.insert(x)),
    decreases s.len(),
{
    if s.len() > 0 {
        let c = s[0];
        let t = encode_with(s.skip(1), enc);
        let u = encode_char(c, enc);
        lemma_escape_pass(s.skip(1), enc, x);
        if c == x {
            lemma_replaced_after_match(seq![x], t, entity(x));
        } else {
            assert forall|j: int| 0 <= j < u.len() implies !matches_at(u + t, seq![x], j) by {
                if enc.contains(c) {
                    lemma_entity_shape(c);
                    assert((u + t)[j] == u[j]);
                    if j == 0 {
                        assert(x != '&');
                    }
                    assert((u + t).subrange(j, j + 1)[0] == u[j]);
                } else {
                    assert((u + t).subrange(0, 1)[0] == c);
                }
            }
            lemma_replaced_unmatched_prefix(u, t, seq![x], entity(x));
        }
    }
}

/// One unescaping pass: replacing the entity of `y` by `y` in a text where
/// the characters of `enc` (among them `&`) are written as entities.
proof fn lemma_unescape_pass(s: Seq<char>, enc: Set<char>, y: char)
    requires
        enc.contains(y),
        enc.contains('&'),
        forall|c: char| enc.contains(c) ==> is_special(c),
    ensures
        replaced(encode_with(s, enc), entity(y), seq![y]) == encode_with(s, enc.remove(y)),
    decreases s.len(),
{
    if s.len() > 0 {
        let c = s[0];
        let t = encode_with(s.skip(1), enc);
        let u = encode_char(c, enc);
        let pat = entity(y);
        lemma_entity_shape(y);
        lemma_unescape_pass(s.skip(1), enc, y);
        if c == y {
            lemma_replaced_after_match(pat, t, seq![y]);
        } else {
            assert forall|j: int| 0 <= j < u.len() implies !matches_at(u + t, pat, j) by {
                if matches_at(u + t, pat, j) {
                    assert((u + t).subrange(j, j + pat.len())[0] == pat[0]);
                    assert((u + t)[j] == '&');
                    if enc.contains(c) {
                        lemma_entity_shape(c);
                        assert((u + t)[j] == u[j]);
                        if j == 0 {
                            lemma_entities_differ(c, y);
                            let k = choose|k: int|
                                0 <= k < entity(c).len() && k < entity(y).len() && entity(c)[k]
                                    != entity(y)[k];
                            assert((u + t).subrange(0, pat.len() as int)[k] == u[k]);
                        }
                    } else {
                        assert((u + t)[0] == c);
                    }
                }
            }
            lemma_replaced_unmatched_prefix(u, t, pat, seq![y]);
        }
    }
}

/// Escaping writes each of `&`, `<`, `>`, `"` and `'` as its entity and
/// keeps every other character as it is, whatever the order of the passes.
pub proof fn lemma_escaped_encodes_all(s: Seq<char>)
    ensures
        xml_escaped(s) == encode_with(s, all_special()),
{
    let e0 = Set::<char>::empty();
    let e1 = e0.insert('&');
    let e2 = e1.insert('<');
    let e3 = e2.insert('>');
    let e4 = e3.insert('"');
    lemma_encode_nothing(s);
    lemma_escape_pass(s, e0, '&');
    lemma_escape_pass(s, e1, '<');
    lemma_escape_pass(s, e2, '>');
    lemma_escape_pass(s, e3, '"');
    lemma_escape_pass(s, e4, '\'');
}

/// Unescaping undoes escaping: for every text `s`,
/// `unescape_xml_text(escape_xml_text(s)) == s`. The command that the
/// autostart task stores is therefore read back as the path it was made from.
pub proof fn lemma_unescape_escaped(s: Seq<char>)
    ensures
        xml_unescaped(xml_escaped(s)) == s,
{
    lemma_escaped_encodes_all(s);
    let a = all_special();
    let a1 = a.remove('<');
    let a2 = a1.remove('>');
    let a3 = a2.remove('"');
    let a4 = a3.remove('\'');
    lemma_unescape_pass(s, a, '<');
    lemma_unescape_pass(s, a1, '>');
    lemma_unescape_pass(s, a2, '"');
    lemma_unescape_pass(s, a3, '\'');
    lemma_unescape_pass(s, a4, '&');
    assert(a4.remove('&') =~= Set::<char>::empty());
    lemma_encode_nothing(s);
}


// ---------------------------------------------------------------------
// The autostart task document
// ---------------------------------------------------------------------

/// The task's name in the scheduler.
pub const TASK_NAME: &'static str = "FuckACE_AutoStart";

/// The task document up to the opening tag of the command.
pub const TASK_XML_HEAD: &'static str = "<?xml version=\"1.0\" encoding=\"UTF-16\"?>\n<Task version=\"1.2\" xmlns=\"http://schemas.microsoft.com/windows/2004/02/mit/task\">\n  <RegistrationInfo>\n    <Description>FuckACE Auto Start</Description>\n  </RegistrationInfo>\n  <Triggers>\n    <LogonTrigger>\n      <Enabled>true</Enabled>\n      <Delay>PT10S</Delay>\n    </LogonTrigger>\n  </Triggers>\n  <Principals>\n    <Principal id=\"Author\">\n      <LogonType>InteractiveToken</LogonType>\n      <RunLevel>HighestAvailable</RunLevel>\n    </Principal>\n  </Principals>\n  <Settings>\n    <MultipleInstancesPolicy>IgnoreNew</MultipleInstancesPolicy>\n    <DisallowStartIfOnBatteries>false</DisallowStartIfOnBatteries>\n    <StopIfGoingOnBatteries>false</StopIfGoingOnBatteries>\n    <AllowHardTerminate>true</AllowHardTerminate>\n    <StartWhenAvailable>false</StartWhenAvailable>\n    <RunOnlyIfNetworkAvailable>false</RunOnlyIfNetworkAvailable>\n    <AllowStartOnDemand>true</AllowStartOnDemand>\n    <Enabled>true</Enabled>\n    <Hidden>false</Hidden>\n    <RunOnlyIfIdle>false</RunOnlyIfIdle>\n    <WakeToRun>false</WakeToRun>\n    <ExecutionTimeLimit>PT0S</ExecutionTimeLimit>\n    <Priority>7</Priority>\n  </Settings>\n  <Actions Context=\"Author\">\n    <Exec>\n      <Command>";

/// The task document from the closing tag of the command on.
pub const TASK_XML_TAIL: &'static str = "</Command>\n      <Arguments>--autostart</Arguments>\n    </Exec>\n  </Actions>\n</Task>";

/// The task document that starts the program at `exe_path` at logon: the
/// path, escaped, stands between the command tags.
pub open spec fn task_document(exe_path: Seq<char>) -> Seq<char> {
    TASK_XML_HEAD@ + xml_escaped(exe_path) + TASK_XML_TAIL@
}

/// The autostart task document for the program at `exe_path`.
pub fn task_xml(exe_path: &str) -> (r: String)
    ensures
        r@ == task_document(exe_path@),
{
    let command = escape_xml_text(exe_path);
    let mut xml = owned(TASK_XML_HEAD);
    xml.append(command.as_str());
    xml.append(TASK_XML_TAIL);
    xml
}

// ---------------------------------------------------------------------
// Reading the command back
// ---------------------------------------------------------------------

/// `<Command>`.
pub open spec fn command_open() -> Seq<char> {
    seq!['<', 'C', 'o', 'm', 'm', 'a', 'n', 'd', '>']
}

/// `</Command>`.
pub open spec fn command_close() -> Seq<char> {
    seq!['<', '/', 'C', 'o', 'm', 'm', 'a', 'n', 'd', '>']
}

/// The text between the first `<Command>` and the first `</Command>` after
/// it, trimmed; `None` when either tag is missing.
pub open spec fn task_command(xml: Seq<char>) -> Option<Seq<char>> {
    match first_match_from(xml, command_open(), 0) {
        None => None,
        Some(i) => match first_match_from(xml, command_close(), i + 9) {
            None => None,
            Some(j) => Some(trimmed(xml.subrange(i + 9, j))),
        },
    }
}

/// The command that a task document runs: the trimmed text between the
/// first `<Command>` and the first `</Command>` after it.
pub fn extract_task_command(xml: &str) -> (r: Option<String>)
    ensures
        task_command(xml@) == match r {
            Some(s) => Some(s@),
            None => None,
        },
{
    proof {
        reveal_strlit("<Command>");
        reveal_strlit("</Command>");
    }
    let x = chars_of(xml);
    let open = chars_of("<Command>");
    let close = chars_of("</Command>");
    assert(open@ =~= command_open());
    assert(close@ =~= command_close());
    let i = match find_from(&x, &open, 0) {
        Some(i) => i,
        None => return None,
    };
    assert(i + 9 <= x.len());
    let start = i + 9;
    let end = match find_from(&x, &close, start) {
        Some(j) => j,
        None => return None,
    };
    let mut inner: Vec<char> = Vec::new();
    let mut k: usize = start;
    while k < end
        invariant
            start <= k <= end <= x.len(),
            inner@ == x@.subrange(start as int, k as int),
        decreases end - k,
    {
        inner.push(x[k]);
        k += 1;
        assert(inner@ == x@.subrange(start as int, k as int));
    }
    let t = trim_chars(&inner);
    Some(string_of(&t))
}

/// What `String::from_utf8_lossy` returns for these bytes (UTF-8 decoding
/// with U+FFFD for each ill-formed part).
pub uninterp spec fn utf8_lossy(bytes: Seq<u8>) -> Seq<char>;

/// Trusted: `String::from_utf8_lossy`, named [`utf8_lossy`] of the bytes.
#[verifier::external_body]
fn string_from_utf8_lossy(bytes: &[u8]) -> (s: String)
    ensures
        s@ == utf8_lossy(bytes@),
{
    String::from_utf8_lossy(bytes).into_owned()
}

/// The text of the scheduler's output: UTF-16LE when it starts with the
/// byte-order mark `FF FE`, UTF-8 (decoded lossily) otherwise.
pub open spec fn task_output_text(bytes: Seq<u8>) -> Seq<char> {
    if bytes.len() >= 2 && bytes[0] == 0xFF && bytes[1] == 0xFE {
        utf16_decode_lossy(le_units(bytes.skip(2)))
    } else {
        utf8_lossy(bytes)
    }
}

/// Decodes what the scheduler prints of a task: UTF-16LE after a
/// byte-order mark, lossy UTF-8 otherwise.
pub fn decode_task_output(bytes: &Vec<u8>) -> (s: String)
    ensures
        s@ == task_output_text(bytes@),
{
    if bytes.len() >= 2 && bytes[0] == 0xFF && bytes[1] == 0xFE {
        let units = le_units_from(bytes, 2);
        utf16_to_string_lossy(&units)
    } else {
        string_from_utf8_lossy(bytes.as_slice())
    }
}

/// The message for a failed task creation, with what the scheduler wrote
/// to its error stream, trimmed.
pub fn task_creation_failure(stderr: &Vec<u8>) -> (r: String)
    ensures
        r@ == "创建计划任务失败: "@ + trimmed(utf8_lossy(stderr@)),
{
    let text = string_from_utf8_lossy(stderr.as_slice());
    let mut r = owned("创建计划任务失败: ");
    let t = str_trim(text.as_str());
    r.append(t.as_str());
    r
}

// ---------------------------------------------------------------------
// Comparing paths
// ---------------------------------------------------------------------

/// A path with every `/` written as `\`.
pub open spec fn with_backslashes(path: Seq<char>) -> Seq<char> {
    replaced(path, seq!['/'], seq!['\\'])
}

/// The form in which paths are compared: separators as `\`, then lower case.
pub open spec fn normalized_path(path: Seq<char>) -> Seq<char> {
    lowercase(with_backslashes(path))
}

/// The path with every `/` written as `\`.
pub fn path_with_backslashes(path: &str) -> (r: String)
    ensures
        r@ == with_backslashes(path@),
{
    proof {
        reveal_strlit("/");
        reveal_strlit("\\");
    }
    assert("/"@ =~= seq!['/']);
    assert("\\"@ =~= seq!['\\']);
    str_replace(path, "/", "\\")
}

/// Whether two paths name the same file once separators and letter case
/// are disregarded.
pub fn paths_equivalent(left: &str, right: &str) -> (r: bool)
    ensures
        r == (normalized_path(left@) == normalized_path(right@)),
{
    let l = path_with_backslashes(left);
    let r = path_with_backslashes(right);
    let l2 = to_lowercase(l.as_str());
    let r2 = to_lowercase(r.as_str());
    l2 == r2
}

proof fn lemma_no_slash_after_replacing(s: Seq<char>)
    ensures
        forall|k: int| 0 <= k < with_backslashes(s).len() ==> with_backslashes(s)[k] != '/',
    decreases s.len(),
{
    if s.len() > 0 {
        if matches_at(s, seq!['/'], 0) {
            lemma_no_slash_after_replacing(s.skip(1));
            let r = with_backslashes(s.skip(1));
            assert forall|k: int| 0 <= k < (seq!['\\'] + r).len() implies (seq!['\\'] + r)[k]
                != '/' by {
                if k > 0 {
                    assert((seq!['\\'] + r)[k] == r[k - 1]);
                }
            }
        } else {
            lemma_no_slash_after_replacing(s.skip(1));
            let r = with_backslashes(s.skip(1));
            assert(s.subrange(0, 1) =~= seq![s[0]]);
            assert(s[0] != '/');
            assert forall|k: int| 0 <= k < (seq![s[0]] + r).len() implies (seq![s[0]] + r)[k]
                != '/' by {
                if k > 0 {
                    assert((seq![s[0]] + r)[k] == r[k - 1]);
                }
            }
        }
    }
}

/// Comparing paths disregards the separator style: a path and the same path
/// with every `/` written as `\` are equivalent, and equivalence is
/// reflexive, symmetric and transitive.
pub proof fn lemma_paths_equivalence(a: Seq<char>, b: Seq<char>, c: Seq<char>)
    ensures
        normalized_path(with_backslashes(a)) == normalized_path(a),
        normalized_path(a) == normalized_path(a),
        normalized_path(a) == normalized_path(b) ==> normalized_path(b) == normalized_path(a),
        normalized_path(a) == normalized_path(b) && normalized_path(b) == normalized_path(c)
            ==> normalized_path(a) == normalized_path(c),
{
    let w = with_backslashes(a);
    lemma_no_slash_after_replacing(a);
    assert forall|j: int| 0 <= j < w.len() implies !matches_at(w + Seq::empty(), seq!['/'], j) by {
        assert((w + Seq::<char>::empty())[j] == w[j]);
        if matches_at(w + Seq::empty(), seq!['/'], j) {
            assert((w + Seq::<char>::empty()).subrange(j, j + 1)[0] == w[j]);
        }
    }
    lemma_replaced_unmatched_prefix(w, Seq::empty(), seq!['/'], seq!['\\']);
    assert(w + Seq::<char>::empty() =~= w);
    assert(replaced(Seq::<char>::empty(), seq!['/'], seq!['\\']) =~= Seq::<char>::empty());
}

/// The autostart task must be made again when the command that it stores,
/// unescaped, is not the program's current path.
pub open spec fn task_rebuild_needed(stored_command: Seq<char>, current_exe: Seq<char>) -> bool {
    normalized_path(xml_unescaped(stored_command)) != normalized_path(current_exe)
}

/// Whether the autostart task, whose stored command is given, must be made
/// again for the program now at `current_exe`.
pub fn needs_task_rebuild(stored_command: &str, current_exe: &str) -> (r: bool)
    ensures
        r == task_rebuild_needed(stored_command@, current_exe@),
{
    let stored = unescape_xml_text(stored_command);
    !paths_equivalent(stored.as_str(), current_exe)
}


// ---------------------------------------------------------------------
// A task written for a path is read back as that path
// ---------------------------------------------------------------------

proof fn lemma_encoded_without_open_angle(s: Seq<char>, enc: Set<char>)
    requires
        forall|c: char| enc.contains(c) ==> is_special(c),
        enc.contains('<'),
    ensures
        forall|k: int| 0 <= k < encode_with(s, enc).len() ==> encode_with(s, enc)[k] != '<',
    decreases s.len(),
{
    if s.len() > 0 {
        lemma_encoded_without_open_angle(s.skip(1), enc);
        let u = encode_char(s[0], enc);
        let t = encode_with(s.skip(1), enc);
        if enc.contains(s[0]) {
            lemma_entity_shape(s[0]);
        }
        assert forall|k: int| 0 <= k < (u + t).len() implies (u + t)[k] != '<' by {
            if k >= u.len() {
                assert((u + t)[k] == t[k - u.len()]);
            }
        }
    }
}

proof fn lemma_encoded_ends(s: Seq<char>, enc: Set<char>)
    requires
        s.len() > 0,
    ensures
        encode_with(s, enc).len() > 0,
        encode_with(s, enc)[0] == encode_char(s[0], enc)[0],
        encode_with(s, enc).last() == encode_char(s.last(), enc).last(),
    decreases s.len(),
{
    let u = encode_char(s[0], enc);
    let t = encode_with(s.skip(1), enc);
    if s.len() == 1 {
        assert(s.skip(1).len() == 0);
        assert(u + t =~= u);
    } else {
        lemma_encoded_ends(s.skip(1), enc);
        assert(s.skip(1).last() == s.last());
        assert((u + t).last() == t.last());
    }
}

proof fn lemma_trimmed_unchanged(e: Seq<char>)
    requires
        e.len() > 0 ==> !is_white_space(e[0]) && !is_white_space(e.last()),
    ensures
        trimmed(e) == e,
{
    assert(trim_start(e) == e);
    assert(trim_end(e) == e);
}

/// An escaped path has no white space at its ends when the path has none.
proof fn lemma_escaped_ends(path: Seq<char>)
    requires
        path.len() > 0 ==> !is_white_space(path[0]) && !is_white_space(path.last()),
    ensures
        trimmed(xml_escaped(path)) == xml_escaped(path),
        forall|k: int| 0 <= k < xml_escaped(path).len() ==> xml_escaped(path)[k] != '<',
{
    lemma_escaped_encodes_all(path);
    let e = encode_with(path, all_special());
    lemma_encoded_without_open_angle(path, all_special());
    if path.len() > 0 {
        lemma_encoded_ends(path, all_special());
        if all_special().contains(path[0]) {
            lemma_entity_shape(path[0]);
        }
        if all_special().contains(path.last()) {
            lemma_entity_shape(path.last());
            assert(entity(path.last()).last() == ';');
        }
    }
    lemma_trimmed_unchanged(e);
}

/// `<Command>` occurs in the head of the task document only where the head
/// ends, and `</Command>` starts its tail.
proof fn lemma_task_tags()
    ensures
        TASK_XML_HEAD@.len() >= 9,
        TASK_XML_HEAD@.subrange(TASK_XML_HEAD@.len() - 9, TASK_XML_HEAD@.len() as int)
            == command_open(),
        forall|j: int|
            0 <= j < TASK_XML_HEAD@.len() - 9 && #[trigger] TASK_XML_HEAD@[j] == '<' ==> TASK_XML_HEAD@[j + 1] != 'C',
        TASK_XML_TAIL@.len() >= 10,
        TASK_XML_TAIL@.subrange(0, 10) == command_close(),
{
    reveal_strlit("<?xml version=\"1.0\" encoding=\"UTF-16\"?>\n<Task version=\"1.2\" xmlns=\"http://schemas.microsoft.com/windows/2004/02/mit/task\">\n  <RegistrationInfo>\n    <Description>FuckACE Auto Start</Description>\n  </RegistrationInfo>\n  <Triggers>\n    <LogonTrigger>\n      <Enabled>true</Enabled>\n      <Delay>PT10S</Delay>\n    </LogonTrigger>\n  </Triggers>\n  <Principals>\n    <Principal id=\"Author\">\n      <LogonType>InteractiveToken</LogonType>\n      <RunLevel>HighestAvailable</RunLevel>\n    </Principal>\n  </Principals>\n  <Settings>\n    <MultipleInstancesPolicy>IgnoreNew</MultipleInstancesPolicy>\n    <DisallowStartIfOnBatteries>false</DisallowStartIfOnBatteries>\n    <StopIfGoingOnBatteries>false</StopIfGoingOnBatteries>\n    <AllowHardTerminate>true</AllowHardTerminate>\n    <StartWhenAvailable>false</StartWhenAvailable>\n    <RunOnlyIfNetworkAvailable>false</RunOnlyIfNetworkAvailable>\n    <AllowStartOnDemand>true</AllowStartOnDemand>\n    <Enabled>true</Enabled>\n    <Hidden>false</Hidden>\n    <RunOnlyIfIdle>false</RunOnlyIfIdle>\n    <WakeToRun>false</WakeToRun>\n    <ExecutionTimeLimit>PT0S</ExecutionTimeLimit>\n    <Priority>7</Priority>\n  </Settings>\n  <Actions Context=\"Author\">\n    <Exec>\n      <Command>");
    reveal_strlit("</Command>\n      <Arguments>--autostart</Arguments>\n    </Exec>\n  </Actions>\n</Task>");
    assert(TASK_XML_HEAD@.subrange(TASK_XML_HEAD@.len() - 9, TASK_XML_HEAD@.len() as int)
        =~= command_open());
    assert(TASK_XML_TAIL@.subrange(0, 10) =~= command_close());
}

/// The task written for a path is read back as that path: its file, decoded,
/// is the document; the command in the document is the escaped path; and,
/// unescaped, that command is the path again, so the task is not made anew
/// for a program that has not moved. This holds for every path that does not
/// start or end with white space (the command is trimmed when read).
pub proof fn lemma_task_round_trip(path: Seq<char>)
    requires
        path.len() > 0 ==> !is_white_space(path[0]) && !is_white_space(path.last()),
    ensures
        task_output_text(utf16le_document(task_document(path))) == task_document(path),
        task_command(task_document(path)) == Some(xml_escaped(path)),
        xml_unescaped(xml_escaped(path)) == path,
        !task_rebuild_needed(xml_escaped(path), path),
{
    let doc = task_document(path);
    // the file decodes to the document
    let bytes = utf16le_document(doc);
    assert(bytes.skip(2) =~= crate::utf16::le_bytes(crate::utf16::utf16_encode(doc)));
    lemma_le_units_bytes(crate::utf16::utf16_encode(doc));
    lemma_utf16_decode_encode(doc);
    // the command between the tags
    let h = TASK_XML_HEAD@;
    let e = xml_escaped(path);
    let t = TASK_XML_TAIL@;
    lemma_task_tags();
    lemma_escaped_ends(path);
    let i0 = h.len() - 9;
    assert(doc.subrange(i0, i0 + 9) =~= h.subrange(i0, h.len() as int));
    assert forall|j: int| 0 <= j < i0 implies !matches_at(doc, command_open(), j) by {
        if matches_at(doc, command_open(), j) {
            assert(doc.subrange(j, j + 9)[0] == '<');
            assert(doc.subrange(j, j + 9)[1] == 'C');
            assert(doc[j] == h[j]);
            assert(doc[j + 1] == h[j + 1]);
        }
    }
    lemma_first_match_at(doc, command_open(), 0, i0);
    let start = h.len() as int;
    let end = start + e.len();
    assert(doc.subrange(end, end + 10) =~= t.subrange(0, 10));
    assert forall|j: int| start <= j < end implies !matches_at(doc, command_close(), j) by {
        if matches_at(doc, command_close(), j) {
            assert(doc.subrange(j, j + 10)[0] == '<');
            assert(doc[j] == e[j - start]);
        }
    }
    lemma_first_match_at(doc, command_close(), start, end);
    assert(doc.subrange(start, end) =~= e);
    // unescaped, the command is the path
    lemma_unescape_escaped(path);
}

} // verus!
