//! PEP 639 cross-language restricted glob patterns for `license-files`.
//!
//! The syntax is more restricted than regular globbing in Python or Rust
//! for platform independent results: alphanumeric characters, `_`, `-`
//! and `.` are matched verbatim; `*`, `?`, `**` and character ranges
//! `[...]` of verbatim characters are supported; path delimiters are
//! forward slashes; parent directory indicators are not allowed. Since
//! `glob::Pattern` is a superset of this format, it can be used after
//! validating that no unsupported feature is in the string.

use vstd::prelude::*;

use crate::push_char;

verus! {

/// Whether a character is in a Unicode letter or number category.
pub uninterp spec fn is_alphanumeric_char(c: char) -> bool;

/// Relies on `char::is_alphanumeric`: whether the character is in a
/// Unicode letter or number category. The result depends on the character
/// alone.
#[verifier::external_body]
fn char_is_alphanumeric(c: char) -> (r: bool)
    ensures
        r == is_alphanumeric_char(c),
{
    c.is_alphanumeric()
}

/// A failure to validate or compile a `license-files` glob.
#[derive(Debug)]
pub enum Pep639GlobError {
    /// The glob passed validation but `glob` rejected it; the field holds
    /// that library's own rendering of the error.
    PatternError { message: String },
    /// A parent directory indicator (`..`) at the start or after a slash.
    ParentDirectory { glob: String, pos: usize },
    /// A character outside the allowed set.
    InvalidCharacter { glob: String, pos: usize, invalid: char },
    /// A backslash; only forward slashes may separate paths.
    InvalidBackslash { glob: String, pos: usize },
    /// A character outside the allowed set within a `[...]` range.
    InvalidCharacterRange { glob: String, pos: usize, invalid: char },
    /// A run of three or more stars, or a `**` not followed by a slash.
    TooManyStars { glob: String, pos: usize },
}

/// The mathematical value of a [`Pep639GlobError`].
pub ghost enum GlobErrModel {
    PatternError { message: Seq<char> },
    ParentDirectory { glob: Seq<char>, pos: int },
    InvalidCharacter { glob: Seq<char>, pos: int, invalid: char },
    InvalidBackslash { glob: Seq<char>, pos: int },
    InvalidCharacterRange { glob: Seq<char>, pos: int, invalid: char },
    TooManyStars { glob: Seq<char>, pos: int },
}

impl View for Pep639GlobError {
    type V = GlobErrModel;

    open spec fn view(&self) -> GlobErrModel {
        match self {
            Pep639GlobError::PatternError { message } => GlobErrModel::PatternError {
                message: message@,
            },
            Pep639GlobError::ParentDirectory { glob, pos } => GlobErrModel::ParentDirectory {
                glob: glob@,
                pos: *pos as int,
            },
            Pep639GlobError::InvalidCharacter { glob, pos, invalid } =>
                GlobErrModel::InvalidCharacter { glob: glob@, pos: *pos as int, invalid: *invalid },
            Pep639GlobError::InvalidBackslash { glob, pos } => GlobErrModel::InvalidBackslash {
                glob: glob@,
                pos: *pos as int,
            },
            Pep639GlobError::InvalidCharacterRange { glob, pos, invalid } =>
                GlobErrModel::InvalidCharacterRange {
                glob: glob@,
                pos: *pos as int,
                invalid: *invalid,
            },
            Pep639GlobError::TooManyStars { glob, pos } => GlobErrModel::TooManyStars {
                glob: glob@,
                pos: *pos as int,
            },
        }
    }
}

/// The length of the run of consecutive stars starting at `i`.
pub open spec fn star_run_len(s: Seq<char>, i: int) -> int
    decreases s.len() - i,
    when 0 <= i
{
    if i >= s.len() || s[i] != '*' {
        0
    } else {
        1 + star_run_len(s, i + 1)
    }
}

/// A run of `run` stars at `i` followed by the end or a non-star is the
/// whole star run at `i`.
pub proof fn lemma_star_run(s: Seq<char>, i: int, run: int)
    requires
        0 <= i,
        1 <= run,
        i + run <= s.len(),
        forall|k: int| 0 <= k < run ==> #[trigger] s[i + k] == '*',
        i + run == s.len() || s[i + run] != '*',
    ensures
        star_run_len(s, i) == run,
    decreases run,
{
    assert(s[i + 0] == '*');
    if run == 1 {
        assert(star_run_len(s, i + 1) == 0);
    } else {
        assert(forall|k: int| 0 <= k < run - 1 ==> #[trigger] s[i + 1 + k] == s[i + (k + 1)]);
        lemma_star_run(s, i + 1, run - 1);
    }
}

/// The scan of a `[...]` range from position `i`: the position after the
/// closing bracket (or the end, for an unterminated range), or the first
/// offending character and its position.
pub open spec fn range_scan(s: Seq<char>, i: int) -> Result<int, (int, char)>
    decreases s.len() - i,
    when 0 <= i
{
    if i >= s.len() {
        Result::Ok(i)
    } else if is_alphanumeric_char(s[i]) || s[i] == '_' || s[i] == '-' || s[i] == '.' {
        range_scan(s, i + 1)
    } else if s[i] == ']' {
        Result::Ok(i + 1)
    } else {
        Result::Err((i, s[i]))
    }
}

/// A successful range scan never moves backwards.
pub proof fn lemma_range_scan_ge(s: Seq<char>, i: int)
    requires
        0 <= i,
        range_scan(s, i) is Ok,
    ensures
        range_scan(s, i)->Ok_0 >= i,
    decreases s.len() - i,
{
    if i < s.len() && (is_alphanumeric_char(s[i]) || s[i] == '_' || s[i] == '-' || s[i] == '.') {
        lemma_range_scan_ge(s, i + 1);
    }
}

/// The validation of a glob from position `i` on. `start_or_slash`
/// records whether `i` is the start of the string or just after a
/// directory separator, where a `..` is a parent directory indicator.
pub open spec fn glob_check_from(s: Seq<char>, i: int, start_or_slash: bool) -> Option<
    GlobErrModel,
>
    decreases s.len() - i,
    when 0 <= i
{
    if i >= s.len() {
        Option::None
    } else {
        let c = s[i];
        if c == '*' {
            let run = star_run_len(s, i);
            if run >= 3 {
                Option::Some(GlobErrModel::TooManyStars { glob: s, pos: i })
            } else if run == 2 && i + 2 < s.len() && s[i + 2] != '/' {
                Option::Some(GlobErrModel::TooManyStars { glob: s, pos: i })
            } else {
                proof {
                    lemma_star_run_bounds(s, i);
                    lemma_star_run_bounds(s, i + 1);
                    assert(star_run_len(s, i) >= 1);
                }
                glob_check_from(s, i + run, false)
            }
        } else if is_alphanumeric_char(c) || c == '_' || c == '-' || c == '?' {
            glob_check_from(s, i + 1, false)
        } else if c == '.' {
            if start_or_slash && i + 1 < s.len() && s[i + 1] == '.' {
                Option::Some(GlobErrModel::ParentDirectory { glob: s, pos: i })
            } else {
                glob_check_from(s, i + 1, false)
            }
        } else if c == '/' {
            glob_check_from(s, i + 1, true)
        } else if c == '[' {
            match range_scan(s, i + 1) {
                Result::Err((pos, invalid)) => Option::Some(
                    GlobErrModel::InvalidCharacterRange { glob: s, pos, invalid },
                ),
                Result::Ok(next) => {
                    proof {
                        lemma_range_scan_ge(s, i + 1);
                        lemma_range_scan_le(s, i + 1);
                    }
                    glob_check_from(s, next, false)
                },
            }
        } else if c == '\\' {
            Option::Some(GlobErrModel::InvalidBackslash { glob: s, pos: i })
        } else {
            Option::Some(GlobErrModel::InvalidCharacter { glob: s, pos: i, invalid: c })
        }
    }
}

/// A star run never runs past the end of the string.
pub proof fn lemma_star_run_bounds(s: Seq<char>, i: int)
    requires
        0 <= i,
    ensures
        star_run_len(s, i) <= s.len() - i || (i >= s.len() && star_run_len(s, i) == 0),
        star_run_len(s, i) >= 0,
    decreases s.len() - i,
{
    if i < s.len() && s[i] == '*' {
        lemma_star_run_bounds(s, i + 1);
    }
}

/// A successful range scan of a nonempty position strictly advances past
/// the opening bracket's position.
pub proof fn lemma_range_scan_le(s: Seq<char>, i: int)
    requires
        0 <= i,
        range_scan(s, i) is Ok,
    ensures
        i <= s.len() ==> range_scan(s, i)->Ok_0 <= s.len(),
    decreases s.len() - i,
{
    if i < s.len() && (is_alphanumeric_char(s[i]) || s[i] == '_' || s[i] == '-' || s[i] == '.') {
        lemma_range_scan_le(s, i + 1);
    }
}

/// The validation of a whole glob per the PEP 639 rules: the first
/// offence, or nothing for a valid pattern.
pub open spec fn glob_check(s: Seq<char>) -> Option<GlobErrModel> {
    glob_check_from(s, 0, true)
}

/// Scan a `[...]` range from position `k`, as [`range_scan`] says.
fn scan_range(glob: &str, k: usize) -> (r: Result<usize, (usize, char)>)
    requires
        k <= glob@.len(),
    ensures
        match r {
            Result::Ok(n) => range_scan(glob@, k as int) == Result::<int, (int, char)>::Ok(
                n as int,
            ),
            Result::Err((p, c)) => range_scan(glob@, k as int) == Result::<int, (int, char)>::Err(
                (p as int, c),
            ),
        },
{
    let n = glob.unicode_len();
    let mut j = k;
    while j < n
        invariant
            k <= j <= n,
            n == glob@.len(),
            range_scan(glob@, k as int) == range_scan(glob@, j as int),
        decreases n - j,
    {
        let c = glob.get_char(j);
        let v: u32 = c as u32;
        if char_is_alphanumeric(c) || v == 95 || v == 45 || v == 46 {
            proof {
                assert(is_alphanumeric_char(c) || c == '_' || c == '-' || c == '.');
            }
            j = j + 1;
        } else if v == 93 {
            proof {
                assert(c == ']');
                assert(!(is_alphanumeric_char(c) || c == '_' || c == '-' || c == '.'))
                    by {
                    assert(c == ']');
                }
            }
            return Ok(j + 1);
        } else {
            proof {
                assert(c != ']' && c != '_' && c != '-' && c != '.');
            }
            return Err((j, c));
        }
    }
    Ok(j)
}

/// Check a `license-files` glob against the PEP 639 rules, reporting the
/// first offence exactly as [`glob_check`] says.
pub fn check_pep639_glob(glob: &str) -> (r: Result<(), Pep639GlobError>)
    ensures
        match glob_check(glob@) {
            Option::None => r is Ok,
            Option::Some(e) => r matches Err(err) && err@ == e,
        },
{
    let n = glob.unicode_len();
    let mut i: usize = 0;
    let mut start_or_slash = true;
    while i < n
        invariant
            i <= n,
            n == glob@.len(),
            glob_check_from(glob@, i as int, start_or_slash) == glob_check(glob@),
        decreases n - i,
    {
        let c = glob.get_char(i);
        let v: u32 = c as u32;
        if v == 42 {
            proof {
                assert(c == '*');
            }
            let mut run: usize = 1;
            while i + run < n && (glob.get_char(i + run) as u32) == 42
                invariant
                    i < n,
                    n == glob@.len(),
                    1 <= run,
                    i + run <= n,
                    forall|k: int| 0 <= k < run ==> #[trigger] glob@[i + k] == '*',
                decreases n - i - run,
            {
                proof {
                    assert(glob@[i + run] == '*');
                }
                run = run + 1;
            }
            proof {
                lemma_star_run(glob@, i as int, run as int);
            }
            if run >= 3 {
                return Err(Pep639GlobError::TooManyStars { glob: glob.to_owned(), pos: i });
            }
            if run == 2 && i + 2 < n {
                let after = glob.get_char(i + 2);
                if (after as u32) != 47 {
                    proof {
                        assert(after != '/');
                    }
                    return Err(
                        Pep639GlobError::TooManyStars { glob: glob.to_owned(), pos: i },
                    );
                }
                proof {
                    assert(after == '/');
                }
            }
            i = i + run;
            start_or_slash = false;
        } else if char_is_alphanumeric(c) || v == 95 || v == 45 || v == 63 {
            proof {
                assert(c != '*');
                assert(is_alphanumeric_char(c) || c == '_' || c == '-' || c == '?');
            }
            i = i + 1;
            start_or_slash = false;
        } else if v == 46 {
            proof {
                assert(c == '.');
            }
            if start_or_slash && i + 1 < n {
                let next = glob.get_char(i + 1);
                if (next as u32) == 46 {
                    proof {
                        assert(next == '.');
                    }
                    return Err(
                        Pep639GlobError::ParentDirectory { glob: glob.to_owned(), pos: i },
                    );
                }
                proof {
                    assert(next != '.');
                }
            }
            i = i + 1;
            start_or_slash = false;
        } else if v == 47 {
            proof {
                assert(c == '/');
            }
            i = i + 1;
            start_or_slash = true;
        } else if v == 91 {
            proof {
                assert(c == '[');
            }
            match scan_range(glob, i + 1) {
                Ok(next) => {
                    proof {
                        lemma_range_scan_ge(glob@, i as int + 1);
                        lemma_range_scan_le(glob@, i as int + 1);
                    }
                    i = next;
                    start_or_slash = false;
                },
                Err((pos, invalid)) => {
                    return Err(
                        Pep639GlobError::InvalidCharacterRange {
                            glob: glob.to_owned(),
                            pos,
                            invalid,
                        },
                    );
                },
            }
        } else if v == 92 {
            proof {
                assert(c == '\\');
            }
            return Err(Pep639GlobError::InvalidBackslash { glob: glob.to_owned(), pos: i });
        } else {
            proof {
                assert(c != '*' && c != '.' && c != '/' && c != '[' && c != '\\');
                assert(!(is_alphanumeric_char(c) || c == '_' || c == '-' || c == '?'));
            }
            return Err(
                Pep639GlobError::InvalidCharacter { glob: glob.to_owned(), pos: i, invalid: c },
            );
        }
    }
    Ok(())
}

/// The decimal digit character of a value below ten.
pub open spec fn dec_digit(d: int) -> char {
    ((48 + d) as u32) as char
}

/// The decimal rendering of a number, most significant digit first.
pub open spec fn dec_str(n: int) -> Seq<char>
    decreases n,
    when 0 <= n
{
    if n < 10 {
        seq![dec_digit(n)]
    } else {
        dec_str(n / 10).push(dec_digit(n % 10))
    }
}

/// Render a position in decimal.
fn usize_to_string(n: usize) -> (r: String)
    ensures
        r@ == dec_str(n as int),
    decreases n,
{
    let d: u32 = (n % 10) as u32;
    let digit: u8 = (48 + d) as u8;
    proof {
        assert(((48 + d) as u8) as u32 == 48 + d) by (bit_vector)
            requires
                d < 10,
        ;
        assert((digit as char) as u32 == 48 + d);
        assert(dec_digit(n as int % 10) == (digit as char));
    }
    if n < 10 {
        let mut s = String::new();
        push_char(&mut s, digit as char);
        proof {
            assert(s@ =~= seq![dec_digit(n as int)]);
        }
        s
    } else {
        let mut s = usize_to_string(n / 10);
        push_char(&mut s, digit as char);
        proof {
            assert(s@ =~= dec_str(n as int / 10).push(dec_digit(n as int % 10)));
        }
        s
    }
}

/// The exact message each glob error renders to.
pub open spec fn glob_err_text(e: GlobErrModel) -> Seq<char> {
    match e {
        GlobErrModel::PatternError { message } => message,
        GlobErrModel::ParentDirectory { glob, pos } =>
            "The parent directory operator (`..`) at position "@ + dec_str(pos)
                + " is not allowed in glob: `"@ + glob + "`"@,
        GlobErrModel::InvalidCharacter { glob, pos, invalid } => "Invalid character `"@ + seq![
            invalid,
        ] + "` at position "@ + dec_str(pos) + " in glob: `"@ + glob + "`"@,
        GlobErrModel::InvalidBackslash { glob, pos } =>
            "Only forward slashes are allowed as path separator, invalid character at position "@
                + dec_str(pos) + " in glob: `"@ + glob + "`"@,
        GlobErrModel::InvalidCharacterRange { glob, pos, invalid } => "Invalid character `"@
            + seq![invalid] + "` in range at position "@ + dec_str(pos) + " in glob: `"@ + glob
            + "`"@,
        GlobErrModel::TooManyStars { glob, pos } => "Too many at stars at position "@ + dec_str(
            pos,
        ) + " in glob: `"@ + glob + "`"@,
    }
}

impl Pep639GlobError {
    /// The user-facing message of this failure.
    pub fn message(&self) -> (r: String)
        ensures
            r@ == glob_err_text(self@),
    {
        match self {
            Pep639GlobError::PatternError { message } => message.clone(),
            Pep639GlobError::ParentDirectory { glob, pos } => {
                let mut s: String = "The parent directory operator (`..`) at position ".to_owned();
                let p = usize_to_string(*pos);
                s.append(p.as_str());
                s.append(" is not allowed in glob: `");
                s.append(glob.as_str());
                s.append("`");
                s
            },
            Pep639GlobError::InvalidCharacter { glob, pos, invalid } => {
                let mut s: String = "Invalid character `".to_owned();
                push_char(&mut s, *invalid);
                s.append("` at position ");
                let p = usize_to_string(*pos);
                s.append(p.as_str());
                s.append(" in glob: `");
                s.append(glob.as_str());
                s.append("`");
                proof {
                    assert(s@ =~= glob_err_text(self@));
                }
                s
            },
            Pep639GlobError::InvalidBackslash { glob, pos } => {
                let mut s: String =
                    "Only forward slashes are allowed as path separator, invalid character at position ".to_owned();
                let p = usize_to_string(*pos);
                s.append(p.as_str());
                s.append(" in glob: `");
                s.append(glob.as_str());
                s.append("`");
                s
            },
            Pep639GlobError::InvalidCharacterRange { glob, pos, invalid } => {
                let mut s: String = "Invalid character `".to_owned();
                push_char(&mut s, *invalid);
                s.append("` in range at position ");
                let p = usize_to_string(*pos);
                s.append(p.as_str());
                s.append(" in glob: `");
                s.append(glob.as_str());
                s.append("`");
                proof {
                    assert(s@ =~= glob_err_text(self@));
                }
                s
            },
            Pep639GlobError::TooManyStars { glob, pos } => {
                let mut s: String = "Too many at stars at position ".to_owned();
                let p = usize_to_string(*pos);
                s.append(p.as_str());
                s.append(" in glob: `");
                s.append(glob.as_str());
                s.append("`");
                s
            },
        }
    }
}

#[verifier::external_type_specification]
#[verifier::external_body]
pub struct ExPattern(glob::Pattern);

/// Relies on `glob::Pattern::new`: compiles a Unix-shell-style pattern,
/// or reports a syntax error, converted here to that library's own
/// message text.
#[verifier::external_body]
fn pattern_new(pattern: &str) -> (r: Result<glob::Pattern, String>) {
    glob::Pattern::new(pattern).map_err(|e| e.to_string())
}

/// Parse a PEP 639 `license-files` glob: validate it against the PEP 639
/// rules, then compile it with `glob`.
pub fn parse_pep639_glob(glob: &str) -> (r: Result<glob::Pattern, Pep639GlobError>)
    ensures
        match glob_check(glob@) {
            Option::Some(e) => r matches Err(err) && err@ == e,
            Option::None => r is Ok || (r matches Err(err) && err@ is PatternError),
        },
{
    match check_pep639_glob(glob) {
        Ok(()) => {},
        Err(e) => {
            return Err(e);
        },
    }
    match pattern_new(glob) {
        Ok(p) => Ok(p),
        Err(message) => Err(Pep639GlobError::PatternError { message }),
    }
}

} // verus!
