//! What is shared: describing the files of a directory, and when to look at it again.

use vstd::prelude::*;
use vstd::utf8::{encode_utf8, is_ascii_chars};

use crate::file_map::{FileInfo, FileInfoView};
use crate::sealed_url::{
    decrypted_url, encrypt_url, encrypted_url, sealed_form_fits, MAX_MESSAGE_LEN,
};
use crate::text::{
    after_last, chars_of, law_behind_the_last_mark, law_replacing, lemma_after_last, replaced,
    start_after_last, text_of,
};

verus! {

/// The length of an identifier.
pub const ID_LEN: usize = 32;

/// The ASCII letters and digits.
pub open spec fn alphanumeric(c: char) -> bool {
    ||| 'a' <= c <= 'z'
    ||| 'A' <= c <= 'Z'
    ||| '0' <= c <= '9'
}

/// Whether `id` has the form of an identifier.
pub open spec fn is_file_id(id: Seq<char>) -> bool {
    &&& id.len() == ID_LEN
    &&& forall|i: int| 0 <= i < id.len() ==> alphanumeric(#[trigger] id[i])
}

/// `rand::Rng::sample` of the distribution `Alphanumeric` returns an ASCII letter or digit. Which
/// one is up to the thread's random number generator.
#[verifier::external_body]
fn sample_alphanumeric() -> (byte: u8)
    ensures
        alphanumeric(byte as char),
{
    rand::Rng::sample(&mut rand::rng(), rand::distr::Alphanumeric)
}

/// The identifier that drawn letters and digits make: one after the other, in the order in which
/// they were drawn.
pub fn id_from(drawn: &Vec<u8>) -> (id: String)
    requires
        drawn@.len() == ID_LEN,
        forall|i: int| 0 <= i < drawn@.len() ==> alphanumeric(#[trigger] drawn@[i] as char),
    ensures
        is_file_id(id@),
        id@ == drawn@.map_values(|byte: u8| byte as char),
{
    let mut id: String = String::new();
    let mut i: usize = 0;
    while i < drawn.len()
        invariant
            i <= drawn@.len(),
            id@ == drawn@.take(i as int).map_values(|byte: u8| byte as char),
        decreases drawn@.len() - i,
    {
        id.push(drawn[i] as char);
        i = i + 1;
    }
    assert(drawn@.take(drawn@.len() as int) == drawn@);
    id
}

/// A fresh identifier: every letter or digit of it is drawn at random. What was drawn makes the
/// identifier as `id_from` says.
pub fn generate_id() -> (id: String)
    ensures
        is_file_id(id@),
{
    let mut drawn: Vec<u8> = Vec::new();
    while drawn.len() < ID_LEN
        invariant
            drawn@.len() <= ID_LEN,
            forall|i: int| 0 <= i < drawn@.len() ==> alphanumeric(#[trigger] drawn@[i] as char),
        decreases ID_LEN - drawn@.len(),
    {
        drawn.push(sample_alphanumeric());
    }
    id_from(&drawn)
}

/// The last part of a path that is neither empty nor `.`; empty where there is none.
pub open spec fn final_component(path: Seq<char>) -> Seq<char>
    decreases path.len(),
{
    let part = after_last(path, '/');
    if part.len() > 0 && part != seq!['.'] {
        part
    } else if part.len() < path.len() {
        final_component(path.take(path.len() - part.len() - 1))
    } else {
        Seq::empty()
    }
}

/// The file that a path names, if it names one.
pub open spec fn file_name_of(path: Seq<char>) -> Option<Seq<char>> {
    let part = final_component(path);
    if part.len() == 0 || part == seq!['.', '.'] {
        None
    } else {
        Some(part)
    }
}

/// The extension of a file name: what is behind its last dot, unless that dot is its first
/// character.
pub open spec fn extension_of_name(name: Seq<char>) -> Option<Seq<char>> {
    let tail = after_last(name, '.');
    if tail.len() + 1 < name.len() {
        Some(tail)
    } else {
        None
    }
}

/// An ASCII character in lower case.
pub open spec fn ascii_lower(c: char) -> char {
    if 'A' <= c <= 'Z' {
        (c as int + 32) as char
    } else {
        c
    }
}

/// `s` with its ASCII characters in lower case.
pub open spec fn ascii_lowered(s: Seq<char>) -> Seq<char> {
    s.map_values(|c: char| ascii_lower(c))
}

/// Text that is not all ASCII in lower case, as Unicode defines it.
pub uninterp spec fn unicode_lower(s: Seq<char>) -> Seq<char>;

/// `s` in lower case.
pub open spec fn lower(s: Seq<char>) -> Seq<char> {
    if is_ascii_chars(s) {
        ascii_lowered(s)
    } else {
        unicode_lower(s)
    }
}

/// `str::to_lowercase` returns the text in lower case as Unicode defines it: of ASCII text it
/// changes the capital letters and nothing else.
#[verifier::external_body]
fn to_lower(s: &str) -> (result: String)
    ensures
        is_ascii_chars(s@) ==> result@ == ascii_lowered(s@),
        !is_ascii_chars(s@) ==> result@ == unicode_lower(s@),
{
    s.to_lowercase()
}

/// The extension of the file that a path names, if there is one.
pub open spec fn extension_of(filename: Seq<char>) -> Option<Seq<char>> {
    match file_name_of(filename) {
        Some(name) => extension_of_name(name),
        None => None,
    }
}

/// The type of a file: the extension of the name that the path ends in, in lower case.
pub open spec fn file_extension(filename: Seq<char>) -> Seq<char> {
    match extension_of(filename) {
        Some(extension) => lower(extension),
        None => "unknown"@,
    }
}

proof fn lemma_after_last_lowered(s: Seq<char>, mark: char)
    requires
        mark == '/' || mark == '.',
    ensures
        after_last(ascii_lowered(s), mark) == ascii_lowered(after_last(s, mark)),
    decreases s.len(),
{
    let lowered = ascii_lowered(s);
    if s.len() == 0 || s.last() == mark {
        assert(after_last(lowered, mark) =~= ascii_lowered(after_last(s, mark)));
    } else {
        lemma_after_last_lowered(s.drop_last(), mark);
        assert(lowered.drop_last() =~= ascii_lowered(s.drop_last()));
        assert(after_last(lowered, mark) =~= ascii_lowered(after_last(s, mark)));
    }
}

proof fn lemma_final_component_lowered(path: Seq<char>)
    ensures
        final_component(ascii_lowered(path)) == ascii_lowered(final_component(path)),
    decreases path.len(),
{
    let lowered = ascii_lowered(path);
    let part = after_last(path, '/');
    let small = after_last(lowered, '/');
    lemma_after_last_lowered(path, '/');
    assert(part == seq!['.'] <==> small == seq!['.']) by {
        if small == seq!['.'] {
            assert(small.len() == 1);
            assert(small[0] == ascii_lower(part[0]));
            assert(part =~= seq!['.']);
        }
        if part == seq!['.'] {
            assert(small =~= seq!['.']);
        }
    }
    if part.len() > 0 && part != seq!['.'] {
    } else if part.len() < path.len() {
        let rest = path.take(path.len() - part.len() - 1);
        lemma_final_component_lowered(rest);
        assert(lowered.take(lowered.len() - small.len() - 1) =~= ascii_lowered(rest));
    } else {
        assert(ascii_lowered(Seq::<char>::empty()) =~= Seq::<char>::empty());
    }
}

proof fn lemma_extension_lowered(filename: Seq<char>)
    ensures
        match extension_of(filename) {
            Some(extension) => extension_of(ascii_lowered(filename)) == Some(
                ascii_lowered(extension),
            ),
            None => extension_of(ascii_lowered(filename)) is None,
        },
{
    lemma_final_component_lowered(filename);
    let part = final_component(filename);
    let small = ascii_lowered(part);
    assert(part == seq!['.', '.'] <==> small == seq!['.', '.']) by {
        if small == seq!['.', '.'] {
            assert(small[0] == ascii_lower(part[0]) && small[1] == ascii_lower(part[1]));
            assert(part =~= seq!['.', '.']);
        }
        if part == seq!['.', '.'] {
            assert(small =~= seq!['.', '.']);
        }
    }
    lemma_after_last_lowered(part, '.');
}

/// The type of a file does not depend on the case of the ASCII letters in its name, where the
/// extension is ASCII.
pub proof fn law_extension_ignores_case(a: Seq<char>, b: Seq<char>)
    requires
        ascii_lowered(a) == ascii_lowered(b),
        extension_of(a) matches Some(extension) ==> is_ascii_chars(extension),
        extension_of(b) matches Some(extension) ==> is_ascii_chars(extension),
    ensures
        file_extension(a) == file_extension(b),
{
    lemma_extension_lowered(a);
    lemma_extension_lowered(b);
}

/// The span of the last part of a path that is neither empty nor `.`.
fn find_final_component(chars: &Vec<char>) -> (span: (usize, usize))
    ensures
        span.0 <= span.1 <= chars@.len(),
        chars@.subrange(span.0 as int, span.1 as int) == final_component(chars@),
{
    let mut to: usize = chars.len();
    assert(chars@.take(to as int) == chars@);
    loop
        invariant
            to <= chars@.len(),
            final_component(chars@) == final_component(chars@.take(to as int)),
        decreases to,
    {
        let from: usize = start_after_last(chars, to, '/');
        let ghost path = chars@.take(to as int);
        let ghost part = after_last(path, '/');
        assert(part.len() == to - from);
        if from < to && !(to - from == 1 && chars[from] == '.') {
            assert(part != seq!['.']) by {
                if part == seq!['.'] {
                    assert(part[0] == chars@[from as int]);
                }
            }
            return (from, to);
        }
        assert(part.len() == 0 || part =~= seq!['.']);
        if from == 0 {
            assert(chars@.subrange(0, 0) =~= Seq::<char>::empty());
            return (0, 0);
        }
        assert(path.take(path.len() - part.len() - 1) == chars@.take(from - 1));
        to = from - 1;
    }
}

/// The type of the file that a path names: its extension in lower case, or `unknown` where it has
/// none. The parts of a path are separated by `/`, as on Unix.
pub fn get_file_extension(filename: &str) -> (extension: String)
    ensures
        extension@ == file_extension(filename@),
{
    let chars: Vec<char> = chars_of(filename);
    let (from, to): (usize, usize) = find_final_component(&chars);
    let ghost name = final_component(chars@);
    assert(name.len() == to - from);
    if from == to || (to - from == 2 && chars[from] == '.' && chars[from + 1] == '.') {
        proof {
            if to - from == 2 {
                assert(name =~= seq!['.', '.']);
            }
        }
        return "unknown".to_string();
    }
    assert(name != seq!['.', '.']) by {
        if name == seq!['.', '.'] {
            assert(name[0] == chars@[from as int] && name[1] == chars@[from + 1]);
        }
    }
    let name_text: String = text_of(&chars, from, to);
    let name_chars: Vec<char> = chars_of(name_text.as_str());
    let tail: usize = start_after_last(&name_chars, name_chars.len(), '.');
    assert(name_chars@.take(name_chars@.len() as int) == name);
    assert(after_last(name, '.').len() == name.len() - tail);
    if tail < 2 {
        return "unknown".to_string();
    }
    let extension: String = text_of(&name_chars, tail, name_chars.len());
    to_lower(extension.as_str())
}

/// The address that is announced: the peer's own, or `N/A` while it has none.
pub open spec fn announced_address(address: Option<Seq<char>>) -> Seq<char> {
    match address {
        Some(text) => text,
        None => "N/A"@,
    }
}

/// The characters of a text that may be absent.
pub open spec fn optional_text(text: Option<&str>) -> Option<Seq<char>> {
    match text {
        Some(text) => Some(text@),
        None => None,
    }
}

/// Whether an address can be announced at all: its sealed form fits into memory.
pub open spec fn can_announce(address: Option<Seq<char>>) -> bool {
    sealed_form_fits(encode_utf8(announced_address(address)).len())
}

/// Tells whether an address can be announced.
pub fn is_announceable(address: Option<&str>) -> (result: bool)
    ensures
        result == can_announce(optional_text(address)),
{
    let len: usize = match address {
        Some(text) => text.as_bytes().len(),
        None => "N/A".as_bytes().len(),
    };
    (len as u128 + 18) / 3 * 4 <= isize::MAX as u128
}

/// The name under which a file is served: the file's own with `_` for every space.
pub open spec fn served_name(name: Seq<char>) -> Seq<char> {
    replaced(name, ' ', '_')
}

/// What is announced of a file.
pub open spec fn described_file(
    id: Seq<char>,
    name: Seq<char>,
    size: u64,
    address: Option<Seq<char>>,
) -> FileInfoView {
    FileInfoView {
        id,
        name,
        file_type: file_extension(name),
        size,
        url: encrypted_url(announced_address(address)),
    }
}

/// Describes a file that is served under `name`.
///
/// Opening the address in the description gives back the peer's own.
pub fn describe_file(id: String, name: String, size: u64, address: Option<&str>) -> (info: FileInfo)
    requires
        can_announce(optional_text(address)),
    ensures
        info@ == described_file(id@, name@, size, optional_text(address)),
        info.id@ == id@,
        info.name@ == name@,
        info.size == size,
        encode_utf8(announced_address(optional_text(address))).len() <= MAX_MESSAGE_LEN
            ==> decrypted_url(info.url@) == announced_address(optional_text(address)),
{
    let announced: String = match address {
        Some(text) => text.to_string(),
        None => "N/A".to_string(),
    };
    let file_type: String = get_file_extension(name.as_str());
    let url: String = encrypt_url(announced.as_str());
    FileInfo { id, name, file_type, size, url }
}

/// The kinds of changes that are seen in a watched directory.
#[derive(Debug, Clone, Copy, PartialEq, Eq, Structural)]
pub enum WatchedChange {
    Any,
    Access,
    Create,
    Modify,
    Remove,
    Other,
}

/// Whether a change calls for a new scan: something was created, modified or removed.
pub fn needs_rescan(change: WatchedChange) -> (rescan: bool)
    ensures
        rescan == (change is Create || change is Modify || change is Remove),
{
    match change {
        WatchedChange::Create | WatchedChange::Modify | WatchedChange::Remove => true,
        _ => false,
    }
}

/// Whether a path is a single part that names something: not empty, no slash, and not `.`.
pub open spec fn plain_part(name: Seq<char>) -> bool {
    name.len() > 0 && !name.contains('/') && name != seq!['.']
}

/// The type of a file is what is behind the last dot of its name, in lower case, however long
/// that is and whatever stands before it.
pub proof fn law_type_is_behind_the_last_dot(stem: Seq<char>, extension: Seq<char>)
    requires
        stem.len() > 0,
        !stem.contains('/'),
        !extension.contains('/'),
        !extension.contains('.'),
        stem.push('.') + extension != seq!['.', '.'],
    ensures
        file_extension(stem.push('.') + extension) == lower(extension),
        extension_of(stem.push('.') + extension) == Some(extension),
{
    let name = stem.push('.') + extension;
    assert(name != seq!['.']) by {
        assert(name.len() >= 2);
    }
    assert(!name.contains('/')) by {
        if name.contains('/') {
            let i = name.index_of('/');
            assert(name[i] == '/');
            if i < stem.len() {
                assert(stem[i] == '/');
            } else if i > stem.len() {
                assert(extension[i - stem.len() - 1] == '/');
            }
        }
    }
    law_behind_the_last_mark(Seq::empty(), '/', name);
    law_behind_the_last_mark(stem, '.', extension);
}

/// A file has no type only where its name has no dot behind its first character.
pub proof fn law_unknown_without_a_dot(name: Seq<char>)
    requires
        plain_part(name),
        name != seq!['.', '.'],
    ensures
        extension_of(name) is None <==> forall|i: int|
            1 <= i < name.len() ==> #[trigger] name[i] != '.',
        extension_of(name) is None ==> file_extension(name) == "unknown"@,
{
    law_behind_the_last_mark(Seq::empty(), '/', name);
    lemma_after_last(name, '.');
    let tail = after_last(name, '.');
    let start = name.len() - tail.len();
    if start > 0 {
        assert(name[start - 1] == '.');
    }
    if exists|i: int| 1 <= i < name.len() && #[trigger] name[i] == '.' {
        let i = choose|i: int| 1 <= i < name.len() && #[trigger] name[i] == '.';
        if start <= i {
            assert(tail[i - start] == '.');
            assert(tail.contains('.'));
        }
    }
}

/// The type of a path is that of the name at its end: directories before it do not count, nor do
/// slashes and `.` behind it.
pub proof fn law_type_of_a_path(directory: Seq<char>, name: Seq<char>)
    requires
        plain_part(name),
    ensures
        file_extension(directory.push('/') + name) == file_extension(name),
        file_extension((directory.push('/') + name).push('/')) == file_extension(name),
        file_extension(directory.push('/')) == file_extension(directory),
        file_extension(directory.push('/').push('.')) == file_extension(directory),
        file_extension(directory.push('/') + seq!['.', '.']) == "unknown"@,
        file_extension(Seq::empty()) == "unknown"@,
        file_extension(seq!['.']) == "unknown"@,
        file_extension(seq!['.', '.']) == "unknown"@,
{
    let path = directory.push('/') + name;
    law_behind_the_last_mark(directory, '/', name);
    lemma_type_of_a_slash(path);
    lemma_type_of_a_slash(directory);
    let dots = seq!['.', '.'];
    assert(!dots.contains('/'));
    law_behind_the_last_mark(directory, '/', dots);
    assert(dots.len() == 2);
    assert(final_component(directory.push('/') + dots) == dots);
    assert(final_component(dots) == dots);
    let dot = seq!['.'];
    assert(!dot.contains('/'));
    let pointed = directory.push('/').push('.');
    assert(pointed =~= directory.push('/') + dot);
    law_behind_the_last_mark(directory, '/', dot);
    assert(pointed.take(pointed.len() - 2) =~= directory);
}

proof fn lemma_type_of_a_slash(path: Seq<char>)
    ensures
        final_component(path.push('/')) == final_component(path),
{
    let nothing = Seq::<char>::empty();
    law_behind_the_last_mark(path, '/', nothing);
    assert(path.push('/') + nothing =~= path.push('/'));
    assert(path.push('/').take(path.len() as int) =~= path);
}

/// ASCII text in lower case is as long as before, and differs only in its capital letters, which
/// are 32 places before the small ones.
pub proof fn law_lower_case(s: Seq<char>)
    requires
        is_ascii_chars(s),
    ensures
        lower(s).len() == s.len(),
        forall|i: int|
            0 <= i < s.len() && !('A' <= s[i] <= 'Z') ==> #[trigger] lower(s)[i] == s[i],
        forall|i: int|
            0 <= i < s.len() && 'A' <= s[i] <= 'Z' ==> (#[trigger] lower(s)[i]) as int
                == s[i] as int + 32,
{
}

/// A file is announced as what it is: under its identifier, with its name, its size and the type
/// of its name, and with the sealed form of the peer's address, or of `N/A` while it has none.
pub proof fn law_description(
    id: Seq<char>,
    name: Seq<char>,
    size: u64,
    address: Seq<char>,
)
    ensures
        ({
            let info = described_file(id, name, size, Some(address));
            &&& info.id == id
            &&& info.name == name
            &&& info.size == size
            &&& info.file_type == file_extension(name)
            &&& info.url == encrypted_url(address)
        }),
        described_file(id, name, size, None) == described_file(id, name, size, Some("N/A"@)),
{
}

/// A file is served under its own name with an underscore for every space: no other character
/// changes, and none is lost.
pub proof fn law_served_name_keeps_the_rest(name: Seq<char>)
    ensures
        served_name(name).len() == name.len(),
        forall|i: int|
            0 <= i < name.len() && name[i] != ' ' ==> #[trigger] served_name(name)[i] == name[i],
        forall|i: int|
            0 <= i < name.len() && name[i] == ' ' ==> #[trigger] served_name(name)[i] == '_',
{
    law_replacing(name, ' ', '_');
}

/// Every address can be announced whose sealed form, four symbols for every three bytes of the
/// address and its tag, fits into memory.
pub proof fn law_can_announce(address: &str)
    ensures
        optional_text(Some(address)) == Some(address@),
        optional_text(None) is None,
        can_announce(Some(address@)) <==> (encode_utf8(address@).len() + 18) / 3 * 4
            <= isize::MAX,
        can_announce(None),
{
    reveal_strlit("N/A");
    vstd::utf8::is_ascii_chars_encode_utf8("N/A"@);
}

} // verus!
