//! The entry record the pipeline works on, the placeholder sanitizer, and the
//! pure part of the launcher: turning an entry's command template into a
//! program name and its arguments.

use vstd::prelude::*;

use crate::text::{is_ascii_letter, is_ascii_letter_char, split_whitespace_words, split_words};

verus! {

/// One launchable application, read from a desktop entry file. The path is
/// always present; the other fields depend on the source file's completeness.
/// Entries never change once built.
pub struct Entry {
    /// Where the entry file lives; unique per entry.
    pub path: String,
    /// The application identifier derived from the file name.
    pub app_id: String,
    /// The locale-resolved display name, when the file has one.
    pub name: Option<String>,
    /// The locale-resolved generic name, when the file has one.
    pub generic_name: Option<String>,
    /// The raw command template, possibly holding placeholder tokens.
    pub exec_template: Option<String>,
    /// Set when the entry asks not to be shown in menus.
    pub no_display: bool,
}

/// The mathematical value of an [`Entry`]: its strings as character
/// sequences.
pub struct EntryView {
    pub path: Seq<char>,
    pub app_id: Seq<char>,
    pub name: Option<Seq<char>>,
    pub generic_name: Option<Seq<char>>,
    pub exec_template: Option<Seq<char>>,
    pub no_display: bool,
}

impl View for Entry {
    type V = EntryView;

    open spec fn view(&self) -> EntryView {
        EntryView {
            path: self.path@,
            app_id: self.app_id@,
            name: match self.name {
                Some(n) => Some(n@),
                None => None,
            },
            generic_name: match self.generic_name {
                Some(n) => Some(n@),
                None => None,
            },
            exec_template: match self.exec_template {
                Some(t) => Some(t@),
                None => None,
            },
            no_display: self.no_display,
        }
    }
}

impl Clone for Entry {
    fn clone(&self) -> (r: Self)
        ensures
            r@ == self@,
    {
        Entry {
            path: self.path.clone(),
            app_id: self.app_id.clone(),
            name: match &self.name {
                Some(n) => Some(n.clone()),
                None => None,
            },
            generic_name: match &self.generic_name {
                Some(n) => Some(n.clone()),
                None => None,
            },
            exec_template: match &self.exec_template {
                Some(t) => Some(t.clone()),
                None => None,
            },
            no_display: self.no_display,
        }
    }
}

/// Why executing a desktop entry failed. Each variant carries the path of the
/// entry it concerns.
#[derive(Debug, Clone, PartialEq, Eq)]
pub enum DesktopEntryError {
    /// The entry has no command template.
    MissingExec(String),
    /// Spawning the command failed; carries the attempted command string and
    /// the entry's path.
    InvalidExec(String, String),
    /// The cleaned command template yields no tokens to run.
    InvalidExecSyntax(String),
    /// The placeholder pattern could not be compiled. The sanitizer here is
    /// total, so this library never returns it; callers may still match on it.
    Regex(String),
}

/// A desktop entry type whose command template can be cleaned of placeholder
/// tokens.
pub trait CleanPlaceholders {
    /// The raw command template, if any.
    spec fn template_spec(&self) -> Option<Seq<char>>;

    /// The source path, reported in errors.
    spec fn source_path_spec(&self) -> Seq<char>;

    /// The command template with every placeholder token removed, or
    /// `MissingExec` when there is no template.
    fn exec_clean(&self) -> (r: Result<String, DesktopEntryError>)
        ensures
            (self.template_spec() matches Some(t) ==> (r matches Ok(c) && c@
                == strip_placeholders(t))),
            (self.template_spec() is None ==> (r matches Err(DesktopEntryError::MissingExec(p))
                && p@ == self.source_path_spec())),
    ;
}

/// `s` with every placeholder token removed: every two-character run of `%`
/// followed by an ASCII letter is dropped, and every other character stays,
/// in order.
pub open spec fn strip_placeholders(s: Seq<char>) -> Seq<char>
    decreases s.len(),
{
    if s.len() == 0 {
        Seq::empty()
    } else if s[0] == '%' && s.len() >= 2 && is_ascii_letter_char(s[1]) {
        strip_placeholders(s.subrange(2, s.len() as int))
    } else {
        seq![s[0]] + strip_placeholders(s.subrange(1, s.len() as int))
    }
}

/// A template holding no placeholder token at all is left unchanged: cleaning
/// only ever removes the tokens themselves.
pub proof fn lemma_strip_without_tokens_is_identity(s: Seq<char>)
    requires
        forall|i: int|
            0 <= i < s.len() - 1 ==> !(s[i] == '%' && is_ascii_letter_char(#[trigger] s[i + 1])),
    ensures
        strip_placeholders(s) == s,
    decreases s.len(),
{
    if s.len() > 0 {
        let t = s.subrange(1, s.len() as int);
        assert(forall|i: int|
            0 <= i < t.len() - 1 ==> !(t[i] == '%' && is_ascii_letter_char(#[trigger] t[i + 1])))
            by {
            assert(forall|i: int| 0 <= i < t.len() ==> t[i] == s[i + 1]);
        }
        lemma_strip_without_tokens_is_identity(t);
        assert(seq![s[0]] + t =~= s);
    }
}

/// Removes every placeholder token from a command template, leaving all other
/// characters, white space included, untouched.
pub fn clean_template(t: &str) -> (r: String)
    ensures
        r@ == strip_placeholders(t@),
{
    let n = t.unicode_len();
    let mut out = String::new();
    proof {
        assert(t@.subrange(0, n as int) =~= t@);
    }
    let mut i: usize = 0;
    while i < n
        invariant
            i <= n,
            n == t@.len(),
            strip_placeholders(t@) == out@ + strip_placeholders(t@.subrange(i as int, n as int)),
        decreases n - i,
    {
        let ghost suf = t@.subrange(i as int, n as int);
        let c = t.get_char(i);
        if c == '%' && i + 1 < n && is_ascii_letter(t.get_char(i + 1)) {
            proof {
                assert(suf.subrange(2, suf.len() as int) =~= t@.subrange(i + 2, n as int));
            }
            i += 2;
        } else {
            let ghost prev_out = out@;
            out.append(t.substring_char(i, i + 1));
            proof {
                assert(suf.subrange(1, suf.len() as int) =~= t@.subrange(i + 1, n as int));
                assert(t@.subrange(i as int, i + 1) =~= seq![t@[i as int]]);
                assert((prev_out + seq![t@[i as int]]) + strip_placeholders(
                    t@.subrange(i + 1, n as int),
                ) =~= prev_out + (seq![t@[i as int]] + strip_placeholders(
                    t@.subrange(i + 1, n as int),
                )));
            }
            i += 1;
        }
    }
    proof {
        assert(t@.subrange(n as int, n as int) =~= Seq::<char>::empty());
    }
    out
}

impl CleanPlaceholders for Entry {
    open spec fn template_spec(&self) -> Option<Seq<char>> {
        self@.exec_template
    }

    open spec fn source_path_spec(&self) -> Seq<char> {
        self@.path
    }

    fn exec_clean(&self) -> (r: Result<String, DesktopEntryError>) {
        match &self.exec_template {
            Some(t) => Ok(clean_template(t.as_str())),
            None => Err(DesktopEntryError::MissingExec(self.path.clone())),
        }
    }
}

/// A command ready to spawn: the program name and its arguments, as the
/// white-space split of a cleaned command template yields them.
#[derive(Debug)]
pub struct CommandLine {
    pub program: String,
    pub args: Vec<String>,
}

impl Entry {
    /// The program and arguments this entry asks to run: its command template
    /// cleaned of placeholders and split on white space, the first token
    /// naming the program. Fails with `MissingExec` when the entry has no
    /// template and with `InvalidExecSyntax` when the cleaned template holds
    /// no tokens at all.
    pub fn exec_command(&self) -> (r: Result<CommandLine, DesktopEntryError>)
        ensures
            (self@.exec_template is None ==> (r matches Err(DesktopEntryError::MissingExec(p))
                && p@ == self@.path)),
            (self@.exec_template matches Some(t) ==> (split_words(strip_placeholders(t)).len()
                == 0 ==> (r matches Err(DesktopEntryError::InvalidExecSyntax(p)) && p@
                == self@.path))),
            (self@.exec_template matches Some(t) ==> (split_words(strip_placeholders(t)).len() > 0
                ==> (r matches Ok(cl) && {
                let words = split_words(strip_placeholders(t));
                cl.program@ == words[0] && cl.args@.map_values(|a: String| a@) == words.subrange(
                    1,
                    words.len() as int,
                )
            }))),
    {
        let cleaned = match self.exec_clean() {
            Ok(c) => c,
            Err(e) => {
                return Err(e);
            },
        };
        let mut words = split_whitespace_words(cleaned.as_str());
        if words.len() == 0 {
            return Err(DesktopEntryError::InvalidExecSyntax(self.path.clone()));
        }
        let ghost all_words = words@.map_values(|a: String| a@);
        let program = words.remove(0);
        proof {
            assert(words@.map_values(|a: String| a@) =~= all_words.subrange(
                1,
                all_words.len() as int,
            ));
        }
        Ok(CommandLine { program, args: words })
    }
}

/// What a launch produced: the launched process's exit status, or a marker
/// that none is available, as after a detached launch or an abnormal
/// termination without a code.
#[derive(Debug, Clone, Copy, PartialEq, Eq, Structural)]
pub enum LaunchOutcome {
    /// The process exited with this code.
    Exited(i32),
    /// No exit code is available.
    Unavailable,
}

/// The exit code a caller should report for a launch: the launched process's
/// own code when one is available, and zero otherwise.
pub fn launch_exit_code(outcome: &LaunchOutcome) -> (c: i32)
    ensures
        c == (match *outcome {
            LaunchOutcome::Exited(code) => code,
            LaunchOutcome::Unavailable => 0,
        }),
{
    match *outcome {
        LaunchOutcome::Exited(code) => code,
        LaunchOutcome::Unavailable => 0,
    }
}

} // verus!
