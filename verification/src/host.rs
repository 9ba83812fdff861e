//! Strings of the host: command-line arguments and paths, which need not be
//! Unicode.

use crate::text::{alphanumeric, is_alphanumeric, join, joined, texts};
use vstd::prelude::*;
use vstd::utf8::{
    decode_utf8, encode_utf8, encode_utf8_decode_utf8, encode_utf8_valid_utf8, valid_utf8,
};

verus! {

/// How `Debug` writes a Unicode path or argument: quoted and escaped.
pub uninterp spec fn debug_text(text: Seq<char>) -> Seq<char>;

/// `Debug` for `std::path::Path`, on a Unicode path: the contract claims that
/// the output depends on the path alone.
#[verifier::external_body]
fn debug(text: &str) -> (result: String)
    ensures
        result@ == debug_text(text@),
{
    format!("{:?}", std::path::Path::new(text))
}

/// How bytes read when what is not UTF-8 is replaced.
pub uninterp spec fn lossy_text(bytes: Seq<u8>) -> Seq<char>;

/// `String::from_utf8_lossy`: the contract claims that the text depends on the
/// bytes alone, and that UTF-8 is kept as it is.
#[verifier::external_body]
fn lossy(bytes: &Vec<u8>) -> (result: String)
    ensures
        result@ == lossy_text(bytes@),
        valid_utf8(bytes@) ==> result@ == decode_utf8(bytes@),
{
    String::from_utf8_lossy(bytes).into_owned()
}

/// What a path has behind its last slash.
pub open spec fn last_name(path: Seq<char>) -> Seq<char>
    decreases path.len(),
{
    if path.len() == 0 || path.last() == '/' {
        Seq::empty()
    } else {
        last_name(path.drop_last()).push(path.last())
    }
}

/// What a path has in front of its last slash.
pub open spec fn directory(path: Seq<char>) -> Seq<char> {
    path.take(path.len() - last_name(path).len() - 1)
}

/// A path that every host reads alike: it has no backslash or colon, and does
/// not begin with two slashes.
pub open spec fn is_portable(path: Seq<char>) -> bool {
    &&& !path.contains('\\')
    &&& !path.contains(':')
    &&& !(path.len() >= 2 && path[0] == '/' && path[1] == '/')
}

/// A portable path that begins at the root.
pub open spec fn is_rooted(path: Seq<char>) -> bool {
    path.len() > 0 && path[0] == '/'
}

/// The names of a portable path, which slashes part. Empty names do not count,
/// and neither does a single dot, unless the path begins with it.
pub open spec fn components(path: Seq<char>) -> Seq<Seq<char>>
    decreases path.len(),
{
    let name = last_name(path);
    if name.len() >= path.len() {
        if name.len() == 0 {
            Seq::empty()
        } else {
            seq![name]
        }
    } else if name.len() == 0 || name == seq!['.'] {
        components(directory(path))
    } else {
        components(directory(path)).push(name)
    }
}

/// Two portable paths with the same root and names.
pub open spec fn have_same_names(left: Seq<char>, right: Seq<char>) -> bool {
    is_rooted(left) == is_rooted(right) && components(left) == components(right)
}

/// What a path has behind the last character that parts names on some host.
pub open spec fn ending(path: Seq<char>) -> Seq<char>
    decreases path.len(),
{
    if path.len() == 0 || path.last() == '/' || path.last() == '\\' || path.last() == ':' {
        Seq::empty()
    } else {
        ending(path.drop_last()).push(path.last())
    }
}

/// A path that ends in a name, or in a part of one, on every host.
pub open spec fn has_plain_ending(path: Seq<char>) -> bool {
    ending(path).len() > 0 && ending(path) != seq!['.'] && ending(path) != seq!['.', '.']
}

/// Two paths that end in different names on every host.
pub open spec fn end_differently(left: Seq<char>, right: Seq<char>) -> bool {
    has_plain_ending(left) && has_plain_ending(right) && ending(left) != ending(right)
}

/// `==` of `std::path::Path`: the contract claims that a path equals itself; that
/// portable paths are equal if they have the same root and the same names; and
/// that paths which end in different names on every host differ. Which other
/// spellings are equal depends on the host, and is left open.
#[verifier::external_body]
fn paths_are_equal(left: &str, right: &str) -> (result: bool)
    ensures
        left@ == right@ ==> result,
        is_portable(left@) && is_portable(right@) ==> result == have_same_names(left@, right@),
        end_differently(left@, right@) ==> !result,
{
    std::path::Path::new(left) == std::path::Path::new(right)
}

/// The text of an optional string.
pub open spec fn optional_text(string: Option<String>) -> Option<Seq<char>> {
    match string {
        Some(string) => Some(string@),
        None => None,
    }
}

/// A portable path whose end is a name.
pub open spec fn ends_in_name(path: Seq<char>) -> bool {
    is_portable(path) && last_name(path).len() > 0 && last_name(path) != seq!['.']
}

/// What holds of the parent of a path. On every host it is a proper beginning of
/// the path. A portable path has a parent if it has names; the parent has the
/// same root, and all names but the last. If the path and what is in front of its
/// last slash both end in a name, the latter is the parent.
pub open spec fn may_be_parent(path: Seq<char>, parent: Option<Seq<char>>) -> bool {
    match parent {
        Some(text) => {
            &&& text.is_prefix_of(path)
            &&& text.len() < path.len()
            &&& is_portable(path) ==> components(path).len() > 0 && is_rooted(text) == is_rooted(
                path,
            ) && components(text) == components(path).drop_last()
            &&& ends_in_name(path) && path.contains('/') && ends_in_name(directory(path)) ==> text
                == directory(path)
        },
        None => is_portable(path) ==> components(path).len() == 0,
    }
}

/// `std::path::Path::parent`: the contract claims that the parent is a proper
/// beginning of the path; that a portable path has one if it has names, and that
/// this has the same root and all names but the last; and that a portable path
/// and directory that both end in a name are parted at the slash between them.
/// What counts as the last component of other paths depends on the host, and is
/// left open, as is how many of the slashes and dots between the last two names
/// stay.
#[verifier::external_body]
pub(crate) fn parent(path: &str) -> (result: Option<String>)
    ensures
        may_be_parent(path@, optional_text(result)),
{
    match std::path::Path::new(path).parent() {
        Some(parent) => Some(parent.to_string_lossy().into_owned()),
        None => None,
    }
}

/// A path of the host, as bytes.
#[derive(Debug, PartialEq, Eq)]
pub struct HostPath {
    pub bytes: Vec<u8>,
}

impl View for HostPath {
    type V = Seq<u8>;

    open spec fn view(&self) -> Seq<u8> {
        self.bytes@
    }
}

/// The bytes of a vector, again.
fn copied(bytes: &Vec<u8>) -> (result: Vec<u8>)
    ensures
        result@ == bytes@,
{
    let mut result: Vec<u8> = Vec::new();
    let mut k: usize = 0;
    while k < bytes.len()
        invariant
            k <= bytes@.len(),
            result@ == bytes@.take(k as int),
        decreases bytes@.len() - k,
    {
        result.push(bytes[k]);
        assert(result@ =~= bytes@.take(k + 1));
        k += 1;
    }
    assert(bytes@.take(bytes@.len() as int) =~= bytes@);
    result
}

/// Bytes as characters of the same values.
pub open spec fn widened(bytes: Seq<u8>) -> Seq<char> {
    bytes.map_values(|byte: u8| byte as char)
}

fn widen(bytes: &Vec<u8>) -> (result: String)
    ensures
        result@ == widened(bytes@),
{
    let mut result: String = String::new();
    let mut k: usize = 0;
    while k < bytes.len()
        invariant
            k <= bytes@.len(),
            result@ == widened(bytes@).take(k as int),
        decreases bytes@.len() - k,
    {
        result.push(bytes[k] as char);
        assert(result@ =~= widened(bytes@).take(k + 1));
        k += 1;
    }
    assert(widened(bytes@).take(bytes@.len() as int) =~= widened(bytes@));
    result
}

/// What holds of two paths being the same: a path is the same as itself,
/// portable paths are the same if they have the same root and names, and paths
/// that end in different names on every host are not.
pub open spec fn may_be_same(left: Seq<u8>, right: Seq<u8>, same: bool) -> bool {
    &&& left == right ==> same
    &&& is_portable(widened(left)) && is_portable(widened(right)) ==> same == have_same_names(
        widened(left),
        widened(right),
    )
    &&& end_differently(widened(left), widened(right)) ==> !same
}

/// Two paths that are the same on every host.
pub open spec fn are_always_same(left: Seq<u8>, right: Seq<u8>) -> bool {
    ||| left == right
    ||| is_portable(widened(left)) && is_portable(widened(right)) && have_same_names(
        widened(left),
        widened(right),
    )
}

/// Two paths of which it is settled, for every host, whether they are the same.
pub open spec fn are_settled(left: Seq<u8>, right: Seq<u8>) -> bool {
    ||| left == right
    ||| is_portable(widened(left)) && is_portable(widened(right))
    ||| end_differently(widened(left), widened(right))
}

/// How a host compares paths: which pairs are the same.
pub open spec fn is_comparison(host: spec_fn(Seq<u8>, Seq<u8>) -> bool) -> bool {
    forall|left: Seq<u8>, right: Seq<u8>| may_be_same(left, right, #[trigger] host(left, right))
}

proof fn lemma_ending(path: Seq<char>)
    requires
        is_portable(path),
    ensures
        ending(path) == last_name(path),
        last_name(path).len() <= path.len(),
        has_plain_ending(path) ==> components(path).len() > 0 && components(path).last() == ending(
            path,
        ),
    decreases path.len(),
{
    if path.len() > 0 {
        assert(path.contains(path.last()));
        assert forall|c: char| path.drop_last().contains(c) implies path.contains(c) by {
            let k = choose|k: int| 0 <= k < path.drop_last().len() && path.drop_last()[k] == c;
            assert(path[k] == c);
        }
        lemma_ending(path.drop_last());
    }
}

proof fn lemma_same_names_end_alike(left: Seq<char>, right: Seq<char>)
    requires
        is_portable(left),
        is_portable(right),
        have_same_names(left, right),
    ensures
        !end_differently(left, right),
{
    lemma_ending(left);
    lemma_ending(right);
}

/// Whatever a host may answer about one pair of paths, it can answer as part of
/// a comparison of all paths.
pub proof fn law_answers_belong_to_comparisons(left: Seq<u8>, right: Seq<u8>, same: bool)
    requires
        may_be_same(left, right, same),
    ensures
        exists|host: spec_fn(Seq<u8>, Seq<u8>) -> bool| #[trigger]
            is_comparison(host) && host(left, right) == same,
{
    let host = |a: Seq<u8>, b: Seq<u8>|
        if a == left && b == right {
            same
        } else {
            are_always_same(a, b)
        };
    assert forall|a: Seq<u8>, b: Seq<u8>| may_be_same(a, b, #[trigger] host(a, b)) by {
        if is_portable(widened(a)) && is_portable(widened(b)) && have_same_names(
            widened(a),
            widened(b),
        ) {
            lemma_same_names_end_alike(widened(a), widened(b));
        }
    }
    assert(is_comparison(host) && host(left, right) == same);
}

/// How a path is shown: as it reads in UTF-8, or with what is not UTF-8
/// replaced.
pub open spec fn path_text(path: Seq<u8>) -> Seq<char> {
    if valid_utf8(path) {
        decode_utf8(path)
    } else {
        lossy_text(path)
    }
}

/// A Unicode path is shown as it was written.
pub proof fn law_unicode_paths_are_shown_as_written(text: Seq<char>)
    ensures
        path_text(encode_utf8(text)) == text,
{
    encode_utf8_valid_utf8(text);
    encode_utf8_decode_utf8(text);
}

impl HostPath {
    /// A Unicode path.
    pub fn new(text: &str) -> (path: HostPath)
        ensures
            path@ == encode_utf8(text@),
    {
        HostPath { bytes: text.as_bytes_vec() }
    }

    /// The same path again.
    pub fn duplicate(&self) -> (path: HostPath)
        ensures
            path@ == self@,
    {
        HostPath { bytes: copied(&self.bytes) }
    }

    /// The path for display; what is not Unicode is replaced.
    pub fn display(&self) -> (text: String)
        ensures
            text@ == path_text(self@),
    {
        lossy(&self.bytes)
    }

    /// Whether two paths are the same on the host. Only separators, dots and
    /// prefixes matter for that besides equality, and those are ASCII, so that
    /// bytes can be compared as characters.
    pub fn is_same(&self, other: &HostPath) -> (result: bool)
        ensures
            may_be_same(self@, other@, result),
    {
        paths_are_equal(widen(&self.bytes).as_str(), widen(&other.bytes).as_str())
    }

    /// The parent of the path on the host. As above, bytes can be taken for
    /// characters.
    pub fn parent(&self) -> (result: Option<HostPath>)
        ensures
            may_be_parent(
                widened(self@),
                match result {
                    Some(path) => Some(widened(path@)),
                    None => None,
                },
            ),
    {
        let text: String = match parent(widen(&self.bytes).as_str()) {
            Some(text) => text,
            None => return None,
        };
        let mut bytes: Vec<u8> = copied(&self.bytes);
        let length: usize = text.as_str().unicode_len();
        bytes.truncate(length);
        assert(widened(bytes@) =~= text@);
        Some(HostPath { bytes })
    }
}

/// A command-line argument. One that is not Unicode comes with its `Debug`
/// text.
#[derive(Debug, PartialEq, Eq)]
pub enum Argument {
    Unicode(String),
    Raw { bytes: Vec<u8>, debug: String },
}

/// A command-line argument, as mathematical values.
pub ghost struct ArgumentView {
    /// The argument as Unicode text, if it is that.
    pub text: Option<Seq<char>>,
    /// The argument as a path.
    pub path: Seq<u8>,
    /// The argument in an error message.
    pub shown: Seq<char>,
}

/// A Unicode argument.
pub open spec fn unicode(text: Seq<char>) -> ArgumentView {
    ArgumentView { text: Some(text), path: encode_utf8(text), shown: debug_text(text) }
}

impl View for Argument {
    type V = ArgumentView;

    open spec fn view(&self) -> ArgumentView {
        match self {
            Argument::Unicode(text) => unicode(text@),
            Argument::Raw { bytes, debug } => ArgumentView {
                text: None,
                path: bytes@,
                shown: debug@,
            },
        }
    }
}

impl Argument {
    /// A Unicode argument.
    pub fn new(text: &str) -> (argument: Argument)
        ensures
            argument@ == unicode(text@),
    {
        Argument::Unicode(text.to_owned())
    }

    /// The argument as a path.
    pub fn path(&self) -> (path: HostPath)
        ensures
            path@ == self@.path,
    {
        match self {
            Argument::Unicode(text) => HostPath::new(text.as_str()),
            Argument::Raw { bytes, .. } => HostPath { bytes: copied(bytes) },
        }
    }

    /// The argument in an error message.
    pub fn shown(&self) -> (text: String)
        ensures
            text@ == self@.shown,
    {
        match self {
            Argument::Unicode(text) => debug(text.as_str()),
            Argument::Raw { debug, .. } => debug.clone(),
        }
    }
}

/// Characters that a shell takes literally.
pub open spec fn is_shell_safe(c: char) -> bool {
    is_alphanumeric(c) || c == '_' || c == '+' || c == '-' || c == '.' || c == ',' || c == '/' || c
        == ':' || c == '='
}

/// A character inside single quotes of a shell.
pub open spec fn quoted_char(c: char) -> Seq<char> {
    if c == '\'' {
        "'\\''"@
    } else {
        seq![c]
    }
}

/// The characters of a text inside single quotes of a shell.
pub open spec fn quoted_chars(text: Seq<char>) -> Seq<char>
    decreases text.len(),
{
    if text.len() == 0 {
        Seq::empty()
    } else {
        quoted_chars(text.drop_last()) + quoted_char(text.last())
    }
}

/// A text needs no quotes in a shell.
pub open spec fn is_shell_word(text: Seq<char>) -> bool {
    text.len() > 0 && forall|k: int| 0 <= k < text.len() ==> is_shell_safe(#[trigger] text[k])
}

/// A text as a word of a shell command.
pub open spec fn shell_word(text: Seq<char>) -> Seq<char> {
    if is_shell_word(text) {
        text
    } else {
        seq!['\''] + quoted_chars(text) + seq!['\'']
    }
}

fn is_safe_word(value: &str) -> (result: bool)
    ensures
        result == is_shell_word(value@),
{
    let length: usize = value.unicode_len();
    let mut k: usize = 0;
    while k < length
        invariant
            k <= length == value@.len(),
            forall|j: int| 0 <= j < k ==> is_shell_safe(#[trigger] value@[j]),
        decreases length - k,
    {
        let c: char = value.get_char(k);
        if !(alphanumeric(c) || c == '_' || c == '+' || c == '-' || c == '.' || c == ',' || c
            == '/' || c == ':' || c == '=') {
            assert(!is_shell_safe(value@[k as int]));
            return false;
        }
        k += 1;
    }
    length > 0
}

/// Writes a text as a word of a shell command.
pub fn shell_quote(value: &str) -> (result: String)
    ensures
        result@ == shell_word(value@),
{
    if is_safe_word(value) {
        return value.to_owned();
    }
    let length: usize = value.unicode_len();
    let mut result: String = String::new();
    result.push('\'');
    let mut k: usize = 0;
    assert(result@ =~= seq!['\''] + quoted_chars(value@.take(0)));
    while k < length
        invariant
            k <= length == value@.len(),
            result@ == seq!['\''] + quoted_chars(value@.take(k as int)),
        decreases length - k,
    {
        let c: char = value.get_char(k);
        let ghost before = result@;
        assert(value@.take(k + 1).drop_last() =~= value@.take(k as int));
        if c == '\'' {
            result.append("'\\''");
        } else {
            result.push(c);
        }
        assert(result@ =~= before + quoted_char(c));
        assert(result@ =~= seq!['\''] + quoted_chars(value@.take(k + 1)));
        k += 1;
    }
    assert(value@.take(length as int) =~= value@);
    result.push('\'');
    assert(result@ =~= shell_word(value@));
    result
}

/// What a shell makes of a word: characters in single quotes stand for
/// themselves, and so does a character behind a backslash outside of them.
pub open spec fn shell_value(word: Seq<char>, in_quotes: bool) -> Seq<char>
    decreases word.len(),
{
    if word.len() == 0 {
        Seq::empty()
    } else if word[0] == '\'' {
        shell_value(word.skip(1), !in_quotes)
    } else if word[0] == '\\' && !in_quotes && word.len() >= 2 {
        seq![word[1]] + shell_value(word.skip(2), in_quotes)
    } else {
        seq![word[0]] + shell_value(word.skip(1), in_quotes)
    }
}

proof fn lemma_quoted_char(c: char, rest: Seq<char>)
    ensures
        shell_value(quoted_char(c) + rest, true) == seq![c] + shell_value(rest, true),
{
    let all = quoted_char(c) + rest;
    if c == '\'' {
        reveal_strlit("'\\''");
        reveal_with_fuel(shell_value, 4);
        assert(all.skip(1).skip(2).skip(1) =~= rest);
        assert(all.skip(1)[0] == '\\' && all.skip(1)[1] == '\'');
        assert(all.skip(1).skip(2)[0] == '\'');
    } else {
        assert(all.skip(1) =~= rest);
    }
}

proof fn lemma_quoted_chars(text: Seq<char>, rest: Seq<char>)
    ensures
        shell_value(quoted_chars(text) + rest, true) == text + shell_value(rest, true),
    decreases text.len(),
{
    if text.len() == 0 {
        assert(quoted_chars(text) + rest =~= rest);
        assert(text + shell_value(rest, true) =~= shell_value(rest, true));
    } else {
        let last = quoted_char(text.last());
        lemma_quoted_chars(text.drop_last(), last + rest);
        lemma_quoted_char(text.last(), rest);
        assert(quoted_chars(text) + rest =~= quoted_chars(text.drop_last()) + (last + rest));
        assert(text.drop_last() + (seq![text.last()] + shell_value(rest, true)) =~= text
            + shell_value(rest, true));
    }
}

proof fn lemma_safe_word(text: Seq<char>)
    requires
        forall|k: int| 0 <= k < text.len() ==> is_shell_safe(#[trigger] text[k]),
    ensures
        shell_value(text, false) == text,
    decreases text.len(),
{
    if text.len() > 0 {
        assert(is_shell_safe(text[0]));
        assert forall|k: int| 0 <= k < text.skip(1).len() implies is_shell_safe(
            #[trigger] text.skip(1)[k],
        ) by {
            assert(text.skip(1)[k] == text[k + 1]);
        }
        lemma_safe_word(text.skip(1));
        assert(seq![text[0]] + text.skip(1) =~= text);
    }
}

/// A shell reads a quoted text as the text itself.
pub proof fn law_shell_words_are_faithful(text: Seq<char>)
    ensures
        shell_value(shell_word(text), false) == text,
{
    if is_shell_word(text) {
        lemma_safe_word(text);
    } else {
        let end = seq!['\''];
        lemma_quoted_chars(text, end);
        assert(end.skip(1) =~= Seq::<char>::empty());
        assert(shell_value(end, true) =~= Seq::<char>::empty()) by {
            reveal_with_fuel(shell_value, 2);
        }
        assert(shell_word(text).skip(1) =~= quoted_chars(text) + end);
        assert(text + Seq::<char>::empty() =~= text);
    }
}

/// Several texts as a shell command.
pub open spec fn shell_command(words: Seq<Seq<char>>) -> Seq<char> {
    joined(words.map_values(|word: Seq<char>| shell_word(word)), " "@)
}

/// Writes several texts as a shell command.
pub fn shell_join(words: &Vec<String>) -> (result: String)
    ensures
        result@ == shell_command(texts(words@)),
{
    let mut quoted: Vec<String> = Vec::new();
    let ghost wanted = texts(words@).map_values(|word: Seq<char>| shell_word(word));
    let mut k: usize = 0;
    while k < words.len()
        invariant
            k <= words@.len(),
            wanted == texts(words@).map_values(|word: Seq<char>| shell_word(word)),
            texts(quoted@) == wanted.take(k as int),
        decreases words@.len() - k,
    {
        let ghost before = texts(quoted@);
        quoted.push(shell_quote(words[k].as_str()));
        assert(texts(quoted@) =~= before.push(wanted[k as int]));
        assert(texts(quoted@) =~= wanted.take(k + 1));
        k += 1;
    }
    assert(wanted.take(words@.len() as int) =~= wanted);
    join(&quoted, " ")
}

} // verus!
