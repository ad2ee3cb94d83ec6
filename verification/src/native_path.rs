//! Paths under the rules of the platform that the program runs on.

use vstd::prelude::*;

verus! {

/// The rules for paths on this platform: those of Windows, or those of macOS and Linux. The
/// primary separator tells which. Only `native` makes a value, so the separator in it is
/// always that of the platform.
pub struct PathRules {
    separator: char,
}

/// The primary separator of a platform: a slash on macOS and Linux, a backslash on Windows.
pub open spec fn platform_separator(separator: char) -> bool {
    separator == '/' || separator == '\\'
}

/// `std::path::MAIN_SEPARATOR`: the primary separator on this platform, which is a slash on
/// Unix and a backslash on Windows. Which of the two it is depends on the platform, so no more
/// is claimed.
#[verifier::external_body]
fn main_separator() -> (separator: char)
    ensures
        platform_separator(separator),
{
    std::path::MAIN_SEPARATOR
}

/// What `std::path::Path::parent` gives for `path` on the platform with this primary
/// separator.
pub uninterp spec fn parent_path(separator: char, path: Seq<char>) -> Option<Seq<char>>;

/// What `std::path::Path::join` gives for `dir` and `name` on the platform with this primary
/// separator.
pub uninterp spec fn joined_path(separator: char, dir: Seq<char>, name: Seq<char>) -> Seq<char>;

/// `name` is one ordinary component: it neither separates nor names a drive, this directory or
/// the parent.
pub open spec fn plain_component(name: Seq<char>) -> bool {
    &&& name.len() > 0
    &&& !name.contains('/')
    &&& !name.contains('\\')
    &&& !name.contains(':')
    &&& name != "."@
    &&& name != ".."@
}

/// `text` ends with `end`.
pub open spec fn ends_with(text: Seq<char>, end: Seq<char>) -> bool {
    end.len() <= text.len() && text.skip(text.len() - end.len()) == end
}

impl PathRules {
    /// The primary separator.
    pub closed spec fn separator(&self) -> char {
        self.separator
    }

    /// The rules of this platform: those that go with a slash, or those that go with a
    /// backslash.
    pub fn native() -> (rules: PathRules)
        ensures
            platform_separator(rules.separator()),
    {
        PathRules { separator: main_separator() }
    }

    /// `std::path::Path::parent`: the path without its last component, if it has one. The
    /// result is named, because how a path is taken apart depends on the platform; an empty
    /// path has no component to drop.
    #[verifier::external_body]
    pub(crate) fn parent(&self, path: &str) -> (dir: Option<String>)
        ensures
            match dir {
                Some(text) => parent_path(self.separator(), path@) == Some(text@),
                None => parent_path(self.separator(), path@) is None,
            },
            path@.len() == 0 ==> dir is None,
    {
        std::path::Path::new(path).parent().map(|dir| dir.to_string_lossy().into_owned())
    }

    /// `std::path::Path::join`: `dir` extended with `name`. The result is named, because what
    /// stands between the two depends on the platform; an ordinary component comes last in it.
    #[verifier::external_body]
    pub(crate) fn join(&self, dir: &str, name: &str) -> (path: String)
        ensures
            path@ == joined_path(self.separator(), dir@, name@),
            plain_component(name@) ==> ends_with(path@, name@),
    {
        std::path::Path::new(dir).join(name).to_string_lossy().into_owned()
    }
}

/// A text ends with what was put behind it, and what it ends with can be split off.
pub proof fn law_an_end_can_be_split_off(text: Seq<char>, end: Seq<char>)
    ensures
        ends_with(text + end, end),
        ends_with(text, end) ==> end.len() <= text.len() && text == text.take(
            text.len() - end.len(),
        ) + end,
{
    assert((text + end).skip(text.len() as int) =~= end);
    if ends_with(text, end) {
        let at = text.len() - end.len();
        assert(text =~= text.take(at) + text.skip(at));
    }
}

} // verus!
