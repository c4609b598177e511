//! What a token grants: path patterns for log files and server patterns,
//! and the checks made on a request for access.
use vstd::prelude::*;
use crate::patterns::{regex_set_compiles, regex_set_matches, regex_set_new, regex_set_is_match, pattern_matches};
use crate::text::{chars_of, string_from_chars, contains_parent_dir, seq_contains, parent_dir};

verus! {

/// Access is granted to `content` by `patterns` when they compile and one of
/// them matches it; a list that does not compile grants nothing.
pub open spec fn authorized(patterns: Seq<Seq<char>>, content: Seq<char>) -> bool {
    regex_set_compiles(patterns) && regex_set_matches(patterns, content)
}

/// Granting one more pattern never takes access away, as long as the longer
/// list still compiles: the pattern that matched before still matches.
pub proof fn lemma_more_patterns_keep_access(patterns: Seq<Seq<char>>, extra: Seq<char>, content: Seq<char>)
    ensures
        authorized(patterns, content) && regex_set_compiles(patterns.push(extra))
            ==> authorized(patterns.push(extra), content),
{
    if authorized(patterns, content) {
        let i = choose|i: int| 0 <= i < patterns.len() && #[trigger] pattern_matches(patterns[i], content);
        assert(patterns.push(extra)[i] == patterns[i]);
    }
}

/// The access a token grants.
#[derive(Debug, Clone)]
pub struct AccessData {
    pub paths: Vec<String>,
    pub servers: Vec<String>,
}

impl AccessData {
    /// Whether the path patterns grant access to the log file `path`.
    pub fn file_access_authorized(&self, path: &str) -> (b: bool)
        ensures
            b == authorized(self.paths.deep_view(), path@),
            self.paths@.len() == 0 ==> !b,
    {
        Self::access_authorized(&self.paths, path)
    }

    /// Whether the server patterns grant access to `server`.
    pub fn server_access_authorized(&self, server: &str) -> (b: bool)
        ensures
            b == authorized(self.servers.deep_view(), server@),
            self.servers@.len() == 0 ==> !b,
    {
        Self::access_authorized(&self.servers, server)
    }

    /// Whether `patterns` grant access to `content`. An invalid pattern
    /// grants no access at all.
    fn access_authorized(patterns: &Vec<String>, content: &str) -> (b: bool)
        ensures
            b == authorized(patterns.deep_view(), content@),
            patterns@.len() == 0 ==> !b,
    {
        match regex_set_new(patterns) {
            Ok(re) => regex_set_is_match(&re, content),
            Err(_) => false,
        }
    }
}

/// `p` made to match whole texts only: `^` put in front unless it starts
/// with one, `$` put behind unless it ends with one.
pub open spec fn anchored(p: Seq<char>) -> Seq<char> {
    let front = if p.len() > 0 && p[0] == '^' { Seq::<char>::empty() } else { seq!['^'] };
    let back = if p.len() > 0 && p.last() == '$' { Seq::<char>::empty() } else { seq!['$'] };
    front + p + back
}

/// `path` anchored at both ends, as `anchored` describes.
pub fn anchor_pattern(path: &str) -> (s: String)
    ensures
        s@ == anchored(path@),
{
    let v = chars_of(path);
    let starts = v.len() > 0 && v[0] == '^';
    let ends = v.len() > 0 && v[v.len() - 1] == '$';
    let mut out: Vec<char> = Vec::new();
    if !starts {
        out.push('^');
    }
    let mut i: usize = 0;
    let ghost front = out@;
    while i < v.len()
        invariant
            i <= v.len(),
            out@ == front + v@.take(i as int),
        decreases v.len() - i,
    {
        out.push(v[i]);
        i = i + 1;
        assert(out@ =~= front + v@.take(i as int));
    }
    if !ends {
        out.push('$');
    }
    assert(v@.take(v.len() as int) =~= v@);
    assert(out@ =~= anchored(path@));
    string_from_chars(&out)
}

/// Anchoring twice is anchoring once.
pub proof fn lemma_anchored_idempotent(p: Seq<char>)
    ensures
        anchored(anchored(p)) == anchored(p),
        anchored(p).len() >= 2,
        anchored(p)[0] == '^',
        anchored(p).last() == '$',
{
    let a = anchored(p);
    assert(a[0] == '^');
    assert(a.last() == '$');
    assert(anchored(a) =~= a);
}

/// Why a request for access was refused.
#[derive(Debug, Clone, Copy, PartialEq, Eq)]
pub enum RegisterError {
    /// No path pattern was asked for.
    NoPaths,
    /// A path pattern holds `..`.
    ParentDirectory,
    /// The path patterns do not compile.
    InvalidPaths,
}

impl RegisterError {
    /// The validation code of the refusal, as the request validation
    /// reports it for the `paths` field.
    pub fn code(&self) -> (s: String)
        ensures
            s@ == self.text(),
    {
        match self {
            RegisterError::NoPaths => "length".to_owned(),
            RegisterError::ParentDirectory => "Parent directory access is forbidden.".to_owned(),
            RegisterError::InvalidPaths => "Invalid file paths".to_owned(),
        }
    }

    /// The validation code of the refusal.
    pub open spec fn text(&self) -> Seq<char> {
        match self {
            RegisterError::NoPaths => "length"@,
            RegisterError::ParentDirectory => "Parent directory access is forbidden."@,
            RegisterError::InvalidPaths => "Invalid file paths"@,
        }
    }
}

/// Some pattern of `paths` holds `..`.
pub open spec fn any_parent_dir(paths: Seq<Seq<char>>) -> bool {
    exists|i: int| 0 <= i < paths.len() && seq_contains(#[trigger] paths[i], parent_dir())
}

/// A request for a token granting access to log files and servers.
#[derive(Debug, Clone)]
pub struct RegisterRequest {
    pub paths: Vec<String>,
    pub servers: Vec<String>,
}

/// Whether some string of `paths` holds `..`.
fn has_parent_dir(paths: &Vec<String>) -> (b: bool)
    ensures
        b == any_parent_dir(paths.deep_view()),
{
    let mut i: usize = 0;
    while i < paths.len()
        invariant
            i <= paths.len(),
            forall|j: int| 0 <= j < i ==> !seq_contains(#[trigger] paths.deep_view()[j], parent_dir()),
        decreases paths.len() - i,
    {
        if contains_parent_dir(paths[i].as_str()) {
            assert(seq_contains(paths.deep_view()[i as int], parent_dir()));
            return true;
        }
        i = i + 1;
    }
    false
}

/// The outcome of checking path patterns, as a formula: a pattern holding
/// `..` is refused first, then a list that does not compile.
pub open spec fn paths_check(paths: Seq<Seq<char>>) -> Result<(), RegisterError> {
    if any_parent_dir(paths) {
        Err(RegisterError::ParentDirectory)
    } else if !regex_set_compiles(paths) {
        Err(RegisterError::InvalidPaths)
    } else {
        Ok(())
    }
}

/// Checks the path patterns of a request: that none climbs to a parent
/// directory, and that they compile as regular expressions.
pub fn validate_paths(paths: &Vec<String>) -> (r: Result<(), RegisterError>)
    ensures
        r == paths_check(paths.deep_view()),
{
    if has_parent_dir(paths) {
        return Err(RegisterError::ParentDirectory);
    }
    match regex_set_new(paths) {
        Ok(_) => Ok(()),
        Err(_) => Err(RegisterError::InvalidPaths),
    }
}

impl RegisterRequest {
    /// Checks the request: at least one path pattern (the field's length
    /// check), then `validate_paths`.
    pub fn validate(&self) -> (r: Result<(), RegisterError>)
        ensures
            r == self.validate_spec(),
    {
        if self.paths.len() == 0 {
            return Err(RegisterError::NoPaths);
        }
        validate_paths(&self.paths)
    }

    /// The access a valid request is granted: its path patterns anchored at
    /// both ends, its server patterns as they are.
    pub fn access_data(&self) -> (r: Result<AccessData, RegisterError>)
        ensures
            r is Ok <==> self.validate_spec() is Ok,
            r matches Err(e) ==> self.validate_spec() == Err::<(), RegisterError>(e),
            r matches Ok(a) ==> a.paths.deep_view() == self.paths.deep_view().map_values(|p: Seq<char>| anchored(p)),
            r matches Ok(a) ==> a.servers.deep_view() == self.servers.deep_view(),
    {
        match self.validate() {
            Err(e) => Err(e),
            Ok(()) => {
                let mut paths: Vec<String> = Vec::new();
                let mut i: usize = 0;
                while i < self.paths.len()
                    invariant
                        i <= self.paths.len(),
                        paths.deep_view() == self.paths.deep_view().take(i as int).map_values(|p: Seq<char>| anchored(p)),
                        paths@.len() == i,
                    decreases self.paths.len() - i,
                {
                    let ghost before = paths@;
                    let a = anchor_pattern(self.paths[i].as_str());
                    paths.push(a);
                    proof {
                        assert(paths@ =~= before.push(a));
                        assert forall|j: int| 0 <= j <= i implies #[trigger] paths.deep_view()[j] == anchored(self.paths.deep_view()[j]) by {
                            if j < i {
                                assert(paths@[j] == before[j]);
                                assert(self.paths.deep_view().take(i as int).map_values(|p: Seq<char>| anchored(p))[j] == anchored(self.paths.deep_view()[j]));
                            }
                        }
                    }
                    i = i + 1;
                    assert(paths.deep_view() =~= self.paths.deep_view().take(i as int).map_values(|p: Seq<char>| anchored(p)));
                }
                assert(self.paths.deep_view().take(self.paths.len() as int) =~= self.paths.deep_view());
                let servers = clone_strings(&self.servers);
                Ok(AccessData { paths, servers })
            },
        }
    }

    /// The outcome of `validate`, as a formula.
    pub open spec fn validate_spec(&self) -> Result<(), RegisterError> {
        if self.paths@.len() == 0 {
            Err(RegisterError::NoPaths)
        } else {
            paths_check(self.paths.deep_view())
        }
    }
}

/// A request with a path holding `..`, wherever it stands in the list, is
/// refused as climbing to a parent directory; a request that passes has no
/// such path, has at least one path, and its paths compile.
pub proof fn lemma_parent_dir_anywhere_is_refused(req: RegisterRequest, i: int)
    ensures
        0 <= i < req.paths@.len() && seq_contains(req.paths@[i]@, seq!['.', '.'])
            ==> req.validate_spec() == Err::<(), RegisterError>(RegisterError::ParentDirectory),
        req.validate_spec() is Ok ==> {
            &&& req.paths@.len() > 0
            &&& !(0 <= i < req.paths@.len() && seq_contains(req.paths@[i]@, seq!['.', '.']))
            &&& regex_set_compiles(req.paths.deep_view())
        },
{
    if 0 <= i < req.paths@.len() {
        assert(req.paths.deep_view()[i] == req.paths@[i]@);
        assert(parent_dir() =~= seq!['.', '.']);
    }
}

/// A copy of a list of strings.
pub fn clone_strings(v: &Vec<String>) -> (out: Vec<String>)
    ensures
        out.deep_view() == v.deep_view(),
{
    let mut out: Vec<String> = Vec::new();
    let mut i: usize = 0;
    while i < v.len()
        invariant
            i <= v.len(),
            out.deep_view() == v.deep_view().take(i as int),
            out@.len() == i,
        decreases v.len() - i,
    {
        let ghost before = out@;
        let ghost before_deep = out.deep_view();
        let s = v[i].clone();
        out.push(s);
        proof {
            assert(out@ =~= before.push(v@[i as int]));
            assert forall|j: int| 0 <= j <= i implies #[trigger] out.deep_view()[j] == v.deep_view()[j] by {
                if j < i {
                    assert(out@[j] == before[j]);
                    assert(before_deep[j] == v.deep_view().take(i as int)[j]);
                } else {
                    assert(out@[j] == v@[j]);
                }
            }
        }
        i = i + 1;
        assert(out.deep_view() =~= v.deep_view().take(i as int));
    }
    assert(v.deep_view().take(v.len() as int) =~= v.deep_view());
    out
}

} // verus!
