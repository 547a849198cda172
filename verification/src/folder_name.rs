//! Whether the `UpdateArt` name of a mod can name a folder inside the game's
//! DLC folder.

use vstd::prelude::*;
use crate::text::{
    ascii_lower, eq_ignore_ascii_case, eq_ignore_case, is_control, is_control_char, owned, trim,
    trim_str,
};

verus! {

/// Device names Windows refuses to use as a folder name.
pub const RESERVED_WINDOWS_NAMES: [&'static str; 22] = [
    "CON", "PRN", "AUX", "NUL", "COM1", "COM2", "COM3", "COM4", "COM5", "COM6", "COM7", "COM8",
    "COM9", "LPT1", "LPT2", "LPT3", "LPT4", "LPT5", "LPT6", "LPT7", "LPT8", "LPT9",
];

/// Why a name cannot be used as a folder name.
#[derive(Clone, Copy, Debug, PartialEq, Eq, Structural)]
pub enum FolderNameProblem {
    Empty,
    ForbiddenCharacter,
    SpaceOrDotAtEdge,
    RelativePath,
    ReservedDeviceName,
}

/// Characters that Windows does not allow in a folder name.
pub open spec fn is_forbidden_char(c: char) -> bool {
    ||| c == '/'
    ||| c == '\\'
    ||| c == ':'
    ||| c == '*'
    ||| c == '?'
    ||| c == '"'
    ||| c == '<'
    ||| c == '>'
    ||| c == '|'
    ||| is_control(c)
}

/// The part of `s` before its first `.` (all of `s` when it has none).
pub open spec fn stem(s: Seq<char>) -> Seq<char>
    decreases s.len(),
{
    if s.len() == 0 {
        s
    } else if s[0] == '.' {
        Seq::empty()
    } else {
        seq![s[0]] + stem(s.drop_first())
    }
}

pub open spec fn is_reserved_name(s: Seq<char>) -> bool {
    exists|i: int| 0 <= i < 22 && eq_ignore_case(s, #[trigger] RESERVED_WINDOWS_NAMES@[i]@)
}

/// The first rule, in the order they are checked, that `name` breaks.
pub open spec fn folder_name_problem(name: Seq<char>) -> Option<FolderNameProblem> {
    if name.len() == 0 {
        Some(FolderNameProblem::Empty)
    } else if exists|i: int| 0 <= i < name.len() && is_forbidden_char(#[trigger] name[i]) {
        Some(FolderNameProblem::ForbiddenCharacter)
    } else if trim(name) != name || name.last() == '.' {
        Some(FolderNameProblem::SpaceOrDotAtEdge)
    } else if name == "."@ || name == ".."@ {
        Some(FolderNameProblem::RelativePath)
    } else if is_reserved_name(stem(name)) {
        Some(FolderNameProblem::ReservedDeviceName)
    } else {
        None
    }
}

pub open spec fn problem_reason(p: FolderNameProblem) -> Seq<char> {
    match p {
        FolderNameProblem::Empty => "it is empty"@,
        FolderNameProblem::ForbiddenCharacter => "it contains characters that are not allowed in a folder name"@,
        FolderNameProblem::SpaceOrDotAtEdge => "it starts or ends with a space or a dot"@,
        FolderNameProblem::RelativePath => "it is a relative path"@,
        FolderNameProblem::ReservedDeviceName => "it is a reserved Windows device name"@,
    }
}

/// The message given for a name that cannot be used.
pub open spec fn invalid_name_message(name: Seq<char>, reason: Seq<char>) -> Seq<char> {
    "'"@ + name + "' cannot be used as a DLC folder name ("@ + reason
        + "). The mod's UpdateArt name has to be usable as a folder name."@
}

pub fn reason_text(p: FolderNameProblem) -> (r: &'static str)
    ensures
        r@ == problem_reason(p),
{
    match p {
        FolderNameProblem::Empty => "it is empty",
        FolderNameProblem::ForbiddenCharacter => "it contains characters that are not allowed in a folder name",
        FolderNameProblem::SpaceOrDotAtEdge => "it starts or ends with a space or a dot",
        FolderNameProblem::RelativePath => "it is a relative path",
        FolderNameProblem::ReservedDeviceName => "it is a reserved Windows device name",
    }
}

fn invalid(name: &str, p: FolderNameProblem) -> (r: Result<String, String>)
    ensures
        r matches Err(e) && e@ == invalid_name_message(name@, problem_reason(p)),
{
    let mut msg = owned("'");
    msg.append(name);
    msg.append("' cannot be used as a DLC folder name (");
    msg.append(reason_text(p));
    msg.append("). The mod's UpdateArt name has to be usable as a folder name.");
    Err(msg)
}

pub fn is_forbidden_folder_char(c: char) -> (r: bool)
    ensures
        r == is_forbidden_char(c),
{
    c == '/' || c == '\\' || c == ':' || c == '*' || c == '?' || c == '"' || c == '<' || c == '>'
        || c == '|' || is_control_char(c)
}

/// The part of `s` before its first `.`.
pub fn stem_of(s: &str) -> (r: &str)
    ensures
        r@ == stem(s@),
{
    let n = s.unicode_len();
    let mut i: usize = 0;
    assert(s@.subrange(0, n as int) =~= s@);
    assert(s@.subrange(0, 0) + stem(s@) =~= stem(s@));
    while i < n && s.get_char(i) != '.'
        invariant
            n == s@.len(),
            i <= n,
            forall|k: int| 0 <= k < i ==> s@[k] != '.',
            stem(s@) == s@.subrange(0, i as int) + stem(s@.subrange(i as int, n as int)),
        decreases n - i,
    {
        let ghost rest = s@.subrange(i as int, n as int);
        assert(rest.drop_first() =~= s@.subrange(i + 1, n as int));
        assert(s@.subrange(0, i + 1) =~= s@.subrange(0, i as int) + seq![rest[0]]);
        i = i + 1;
    }
    proof {
        let rest = s@.subrange(i as int, n as int);
        assert(stem(rest) =~= Seq::<char>::empty());
        assert(s@.subrange(0, i as int) + Seq::<char>::empty() =~= s@.subrange(0, i as int));
    }
    s.substring_char(0, i)
}

pub fn is_reserved_windows_name(s: &str) -> (r: bool)
    ensures
        r == is_reserved_name(s@),
{
    let mut i: usize = 0;
    while i < 22
        invariant
            i <= 22,
            forall|k: int| 0 <= k < i ==> !eq_ignore_case(s@, #[trigger] RESERVED_WINDOWS_NAMES@[k]@),
        decreases 22 - i,
    {
        if eq_ignore_ascii_case(s, RESERVED_WINDOWS_NAMES[i]) {
            return true;
        }
        i = i + 1;
    }
    false
}

/// Checks that `name` can be used as the name of a folder in the DLC folder,
/// and gives it back; otherwise says which rule it breaks.
pub fn validate_folder_name(name: &str) -> (r: Result<String, String>)
    ensures
        folder_name_problem(name@) is None ==> (r matches Ok(s) && s@ == name@),
        folder_name_problem(name@) matches Some(p) ==> (r matches Err(e) && e@
            == invalid_name_message(name@, problem_reason(p))),
{
    let n = name.unicode_len();
    if n == 0 {
        return invalid(name, FolderNameProblem::Empty);
    }
    let mut i: usize = 0;
    while i < n
        invariant
            n == name@.len(),
            i <= n,
            forall|k: int| 0 <= k < i ==> !is_forbidden_char(#[trigger] name@[k]),
        decreases n - i,
    {
        if is_forbidden_folder_char(name.get_char(i)) {
            return invalid(name, FolderNameProblem::ForbiddenCharacter);
        }
        i = i + 1;
    }
    let trimmed = trim_str(name);
    if trimmed.unicode_len() != n || name.get_char(n - 1) == '.' {
        return invalid(name, FolderNameProblem::SpaceOrDotAtEdge);
    }
    if eq_str(name, ".") || eq_str(name, "..") {
        return invalid(name, FolderNameProblem::RelativePath);
    }
    let stem = stem_of(name);
    if is_reserved_windows_name(stem) {
        return invalid(name, FolderNameProblem::ReservedDeviceName);
    }
    Ok(owned(name))
}

/// Exact equality of two texts.
pub fn eq_str(a: &str, b: &str) -> (r: bool)
    ensures
        r == (a@ == b@),
{
    let n = a.unicode_len();
    if n != b.unicode_len() {
        return false;
    }
    let mut i: usize = 0;
    while i < n
        invariant
            n == a@.len(),
            n == b@.len(),
            i <= n,
            forall|k: int| 0 <= k < i ==> a@[k] == b@[k],
        decreases n - i,
    {
        if a.get_char(i) != b.get_char(i) {
            return false;
        }
        i = i + 1;
    }
    assert(a@ =~= b@);
    true
}

/// A name that passes validation names one folder inside the DLC folder:
/// it is not empty, holds no path separator or drive colon, is neither `.`
/// nor `..`, and neither starts nor ends with white space nor ends with a dot.
pub proof fn lemma_valid_name_is_one_folder(name: Seq<char>)
    requires
        folder_name_problem(name) is None,
    ensures
        name.len() > 0,
        forall|i: int| 0 <= i < name.len() ==> name[i] != '/' && name[i] != '\\' && name[i] != ':',
        name != "."@,
        name != ".."@,
        name.last() != '.',
        !crate::text::is_space(name[0]),
        !crate::text::is_space(name.last()),
{
    assert forall|i: int| 0 <= i < name.len() implies name[i] != '/' && name[i] != '\\' && name[i] != ':' by {
        assert(!is_forbidden_char(name[i]));
    }
    crate::text::lemma_trimmed_edges(name);
}

/// An ASCII letter.
pub open spec fn is_ascii_letter(c: char) -> bool {
    (65 <= c as u32 && c as u32 <= 90) || (97 <= c as u32 && c as u32 <= 122)
}

/// Two characters equal up to ASCII case are the same character unless both
/// are ASCII letters.
proof fn lemma_same_up_to_case(x: char, y: char)
    requires
        ascii_lower(x as u32) == ascii_lower(y as u32),
    ensures
        is_ascii_letter(x) <==> is_ascii_letter(y),
        !is_ascii_letter(x) ==> x == y,
{
    vstd::utf8::char_u32_cast(x, x as u32);
    vstd::utf8::char_u32_cast(y, y as u32);
}

proof fn lemma_letter_is_plain(c: char)
    requires
        is_ascii_letter(c),
    ensures
        !is_forbidden_char(c),
        !crate::text::is_space(c),
        c != '.',
{
    assert(c != '/');
    assert(!is_control(c));
}

/// Characters equal up to ASCII case agree on every class the rules look at.
proof fn lemma_classes_agree(x: char, y: char)
    requires
        ascii_lower(x as u32) == ascii_lower(y as u32),
    ensures
        is_forbidden_char(x) == is_forbidden_char(y),
        crate::text::is_space(x) == crate::text::is_space(y),
        (x == '.') == (y == '.'),
{
    lemma_same_up_to_case(x, y);
    if is_ascii_letter(x) {
        lemma_letter_is_plain(x);
        lemma_letter_is_plain(y);
    }
}

proof fn lemma_eq_ignore_case_trans(a: Seq<char>, b: Seq<char>, c: Seq<char>)
    requires
        eq_ignore_case(a, b),
    ensures
        eq_ignore_case(a, c) <==> eq_ignore_case(b, c),
{
}

/// Equality up to ASCII case of two texts carries over to their stems.
proof fn lemma_stem_ignores_case(a: Seq<char>, b: Seq<char>)
    requires
        eq_ignore_case(a, b),
    ensures
        eq_ignore_case(stem(a), stem(b)),
    decreases a.len(),
{
    if a.len() > 0 {
        lemma_same_up_to_case(a[0], b[0]);
        if a[0] != '.' {
            let (ra, rb) = (a.drop_first(), b.drop_first());
            assert forall|i: int| 0 <= i < ra.len() implies ascii_lower(ra[i] as u32) == ascii_lower(
                rb[i] as u32,
            ) by {
                assert(ra[i] == a[i + 1] && rb[i] == b[i + 1]);
            }
            lemma_stem_ignores_case(ra, rb);
            let (sa, sb) = (seq![a[0]] + stem(ra), seq![b[0]] + stem(rb));
            assert forall|i: int| 0 <= i < sa.len() implies ascii_lower(sa[i] as u32) == ascii_lower(
                sb[i] as u32,
            ) by {
                if i > 0 {
                    assert(sa[i] == stem(ra)[i - 1] && sb[i] == stem(rb)[i - 1]);
                }
            }
        }
    }
}

/// A text is left unchanged by trimming exactly when it is empty or neither
/// starts nor ends with white space.
proof fn lemma_trim_unchanged(s: Seq<char>)
    ensures
        trim(s) == s <==> (s.len() == 0 || (!crate::text::is_space(s[0]) && !crate::text::is_space(
            s.last(),
        ))),
{
    if s.len() > 0 {
        if trim(s) == s {
            crate::text::lemma_trimmed_edges(s);
        }
        if !crate::text::is_space(s[0]) && !crate::text::is_space(s.last()) {
            assert(crate::text::trim_start(s) == s);
            assert(crate::text::trim_end(s) == s);
        }
    }
}

/// Whether a name can be used, and the rule it breaks, do not depend on ASCII
/// case: two names equal up to ASCII case (such as a name and its ASCII upper
/// or lower case) get the same answer. Reserved device names are matched in
/// any case, and every other rule is about characters that are not letters.
pub proof fn lemma_name_check_ignores_ascii_case(a: Seq<char>, b: Seq<char>)
    requires
        eq_ignore_case(a, b),
    ensures
        folder_name_problem(a) == folder_name_problem(b),
{
    reveal_strlit(".");
    reveal_strlit("..");
    assert forall|i: int| 0 <= i < a.len() implies is_forbidden_char(a[i]) == is_forbidden_char(
        b[i],
    ) && crate::text::is_space(a[i]) == crate::text::is_space(b[i]) && (a[i] == '.') == (b[i]
        == '.') by {
        lemma_classes_agree(a[i], b[i]);
    }
    if a.len() > 0 {
        let n = a.len() - 1;
        lemma_classes_agree(a[0], b[0]);
        lemma_classes_agree(a[n], b[n]);
        lemma_trim_unchanged(a);
        lemma_trim_unchanged(b);
        if exists|i: int| 0 <= i < a.len() && is_forbidden_char(#[trigger] a[i]) {
            let i = choose|i: int| 0 <= i < a.len() && is_forbidden_char(#[trigger] a[i]);
            assert(is_forbidden_char(b[i]));
        }
        if exists|i: int| 0 <= i < b.len() && is_forbidden_char(#[trigger] b[i]) {
            let i = choose|i: int| 0 <= i < b.len() && is_forbidden_char(#[trigger] b[i]);
            assert(is_forbidden_char(a[i]));
        }
        if a.len() == 2 {
            lemma_classes_agree(a[1], b[1]);
        }
        if a == "."@ {
            assert(b =~= "."@);
        }
        if b == "."@ {
            assert(a =~= "."@);
        }
        if a == ".."@ {
            assert(b =~= ".."@);
        }
        if b == ".."@ {
            assert(a =~= ".."@);
        }
        lemma_stem_ignores_case(a, b);
        assert forall|i: int| 0 <= i < 22 implies eq_ignore_case(
            stem(a),
            #[trigger] RESERVED_WINDOWS_NAMES@[i]@,
        ) == eq_ignore_case(stem(b), RESERVED_WINDOWS_NAMES@[i]@) by {
            lemma_eq_ignore_case_trans(stem(a), stem(b), RESERVED_WINDOWS_NAMES@[i]@);
        }
        assert(is_reserved_name(stem(a)) == is_reserved_name(stem(b)));
    }
}

/// Exactly which names are accepted: a name is accepted when it is not empty;
/// holds none of `/ \ : * ? " < > |` and no control character (every other
/// character, such as letters, digits, spaces, apostrophes, dots, `&`, `(`,
/// or non-ASCII letters, is allowed); neither starts nor ends with white
/// space; does not end with a dot; and the part before its first dot is not a
/// reserved Windows device name in any case. An accepted name is given back
/// unchanged.
pub proof fn lemma_accepted_names(name: Seq<char>)
    ensures
        folder_name_problem(name) is None <==> {
            &&& name.len() > 0
            &&& forall|i: int|
                0 <= i < name.len() ==> {
                    let c = #[trigger] name[i];
                    &&& c != '/' && c != '\\' && c != ':' && c != '*' && c != '?'
                    &&& c != '"' && c != '<' && c != '>' && c != '|'
                    &&& !is_control(c)
                }
            &&& !crate::text::is_space(name[0])
            &&& !crate::text::is_space(name.last())
            &&& name.last() != '.'
            &&& !is_reserved_name(stem(name))
        },
{
    reveal_strlit(".");
    reveal_strlit("..");
    lemma_trim_unchanged(name);
    if name.len() > 0 {
        if name == "."@ {
            assert(name.last() == '.');
        }
        if name == ".."@ {
            assert(name.last() == '.');
        }
    }
}

} // verus!
