//! User-defined macros and abbreviations, and the expansion pass that
//! rewrites an input line before it is parsed.
//!
//! A macro maps its name, when it appears as the first word of a line, to a
//! template. If the template contains `$`, the positional placeholders
//! `$1`, `$2`, ... are substituted first (in order), then every remaining
//! `$` is replaced by all remaining words joined with single spaces. A
//! template without `$` simply has the remaining words appended. Expansion
//! is applied once and is not recursive.
//!
//! The store also carries the executor's failure context: the last failed
//! command with its captured stderr, and an externally supplied suggestion,
//! both cleared when a foreground pipeline succeeds.

use vstd::prelude::*;

use crate::assoc::{
    lemma_bind_absent, lemma_bind_at, lemma_lookup_absent, lemma_lookup_at, spec_bind,
    spec_lookup, spec_unbind,
};
use crate::text::{
    contains_char, contains_char_exec, push_all, replace_chars, spec_join, spec_replace,
    spec_split_ws, spec_u64_digits, split_ws, str_eq, strs_view, to_chars, u64_to_string,
    chars_to_string,
};

verus! {

/// A named rewrite rule: the first word of an input line equal to `name`
/// is replaced by `template` (with placeholder substitution).
#[derive(Debug, Clone)]
pub struct Macro {
    pub name: String,
    pub template: String,
}

/// The mathematical value of the store: association lists for macros and
/// abbreviations (earlier entries shadow later ones), plus the executor's
/// failure context.
pub struct MacroStoreModel {
    pub macros: Seq<(Seq<char>, Seq<char>)>,
    pub abbrs: Seq<(Seq<char>, Seq<char>)>,
    pub last_suggestion: Option<Seq<char>>,
    pub last_error: Option<(Seq<char>, Seq<char>)>,
}

/// The template after substituting the positional placeholders `$1` ..
/// `$i` for the first `i` arguments have already been applied; continues
/// with argument `i`.
pub open spec fn spec_positional(t: Seq<char>, args: Seq<Seq<char>>, i: int) -> Seq<char>
    decreases args.len() - i,
    when 0 <= i <= args.len()
{
    if i >= args.len() {
        t
    } else {
        spec_positional(
            spec_replace(t, seq!['$'] + spec_u64_digits(i + 1), args[i]),
            args,
            i + 1,
        )
    }
}

/// The template applied to the remaining words of the line: positional
/// substitution, then the catch-all `$`, or plain appending when the
/// template holds no `$` at all.
pub open spec fn spec_apply_template(template: Seq<char>, args: Seq<Seq<char>>) -> Seq<char> {
    if contains_char(template, '$') {
        spec_replace(
            spec_positional(template, args, 0),
            seq!['$'],
            spec_join(args, seq![' ']),
        )
    } else {
        if args.len() == 0 {
            template
        } else {
            template + seq![' '] + spec_join(args, seq![' '])
        }
    }
}

/// What expansion does to a whole line: `None` when the first word is not
/// a macro name (the line is used unchanged), otherwise the applied
/// template.
pub open spec fn spec_expand(macros: Seq<(Seq<char>, Seq<char>)>, input: Seq<char>) -> Option<
    Seq<char>,
> {
    let parts = spec_split_ws(input);
    if parts.len() == 0 {
        None
    } else {
        match spec_lookup(macros, parts[0]) {
            None => None,
            Some(template) => Some(spec_apply_template(template, parts.drop_first())),
        }
    }
}

/// The store of macros, abbreviations, and the executor's failure context.
pub struct MacroManager {
    macros: Vec<Macro>,
    abbreviations: Vec<(String, String)>,
    last_suggestion: Option<String>,
    last_error: Option<(String, String)>,
}

impl View for MacroManager {
    type V = MacroStoreModel;

    closed spec fn view(&self) -> MacroStoreModel {
        MacroStoreModel {
            macros: Seq::new(self.macros@.len(), |i: int| (self.macros@[i].name@, self.macros@[i].template@)),
            abbrs: Seq::new(self.abbreviations@.len(), |i: int| (self.abbreviations@[i].0@, self.abbreviations@[i].1@)),
            last_suggestion: match &self.last_suggestion {
                Some(s) => Some(s@),
                None => None,
            },
            last_error: match &self.last_error {
                Some(e) => Some((e.0@, e.1@)),
                None => None,
            },
        }
    }
}

impl MacroManager {
    /// An empty store: no macros, no abbreviations, no failure context.
    pub fn new() -> (r: MacroManager)
        ensures
            r@.macros == Seq::<(Seq<char>, Seq<char>)>::empty(),
            r@.abbrs == Seq::<(Seq<char>, Seq<char>)>::empty(),
            r@.last_suggestion is None,
            r@.last_error is None,
    {
        let r = MacroManager {
            macros: Vec::new(),
            abbreviations: Vec::new(),
            last_suggestion: None,
            last_error: None,
        };
        proof {
            assert(r@.macros =~= Seq::<(Seq<char>, Seq<char>)>::empty());
            assert(r@.abbrs =~= Seq::<(Seq<char>, Seq<char>)>::empty());
        }
        r
    }

    /// The index of the first macro entry named `name`, if any.
    fn find_macro_index(&self, name: &str) -> (r: Option<usize>)
        ensures
            match r {
                Some(i) => 0 <= i < self@.macros.len() && self@.macros[i as int].0 == name@
                    && (forall|j: int| 0 <= j < i ==> (#[trigger] self@.macros[j]).0 != name@),
                None => forall|j: int|
                    0 <= j < self@.macros.len() ==> (#[trigger] self@.macros[j]).0 != name@,
            },
    {
        let mut i: usize = 0;
        while i < self.macros.len()
            invariant
                i <= self.macros@.len(),
                forall|j: int| 0 <= j < i ==> (#[trigger] self@.macros[j]).0 != name@,
            decreases self.macros@.len() - i,
        {
            if str_eq(self.macros[i].name.as_str(), name) {
                return Some(i);
            }
            i = i + 1;
        }
        None
    }

    /// The index of the first abbreviation entry named `name`, if any.
    fn find_abbr_index(&self, name: &str) -> (r: Option<usize>)
        ensures
            match r {
                Some(i) => 0 <= i < self@.abbrs.len() && self@.abbrs[i as int].0 == name@ && (
                forall|j: int| 0 <= j < i ==> (#[trigger] self@.abbrs[j]).0 != name@),
                None => forall|j: int|
                    0 <= j < self@.abbrs.len() ==> (#[trigger] self@.abbrs[j]).0 != name@,
            },
    {
        let mut i: usize = 0;
        while i < self.abbreviations.len()
            invariant
                i <= self.abbreviations@.len(),
                forall|j: int| 0 <= j < i ==> (#[trigger] self@.abbrs[j]).0 != name@,
            decreases self.abbreviations@.len() - i,
        {
            if str_eq(self.abbreviations[i].0.as_str(), name) {
                return Some(i);
            }
            i = i + 1;
        }
        None
    }

    /// Defines or redefines the macro `name` as `template`.
    pub fn set_macro(&mut self, name: String, template: String)
        ensures
            final(self)@.macros == spec_bind(old(self)@.macros, name@, template@),
            final(self)@.abbrs == old(self)@.abbrs,
            final(self)@.last_suggestion == old(self)@.last_suggestion,
            final(self)@.last_error == old(self)@.last_error,
    {
        match self.find_macro_index(name.as_str()) {
            Some(i) => {
                self.macros.set(i, Macro { name, template });
                proof {
                    lemma_bind_at(old(self)@.macros, old(self)@.macros[i as int].0,
                        self@.macros[i as int].1, i as int);
                    assert(self@.macros =~= old(self)@.macros.update(i as int, (
                        old(self)@.macros[i as int].0,
                        self@.macros[i as int].1,
                    )));
                    assert(self@.abbrs =~= old(self)@.abbrs);
                }
            },
            None => {
                self.macros.push(Macro { name, template });
                proof {
                    lemma_bind_absent(old(self)@.macros, self@.macros.last().0,
                        self@.macros.last().1);
                    assert(self@.macros =~= old(self)@.macros.push((self@.macros.last().0,
                        self@.macros.last().1)));
                    assert(self@.abbrs =~= old(self)@.abbrs);
                }
            },
        }
    }

    /// Removes the macro `name`, if defined.
    pub fn unset_macro(&mut self, name: &str)
        ensures
            final(self)@.macros == spec_unbind(old(self)@.macros, name@),
            final(self)@.abbrs == old(self)@.abbrs,
            final(self)@.last_suggestion == old(self)@.last_suggestion,
            final(self)@.last_error == old(self)@.last_error,
    {
        let ghost pre = self@.macros;
        let mut kept: Vec<Macro> = Vec::new();
        let mut i: usize = 0;
        proof {
            assert(pre.take(0int).filter(|e: (Seq<char>, Seq<char>)| e.0 != name@) =~= Seq::<
                (Seq<char>, Seq<char>),
            >::empty());
        }
        while i < self.macros.len()
            invariant
                i <= self.macros@.len(),
                pre == self@.macros,
                pre.len() == self.macros@.len(),
                Seq::new(kept@.len(), |j: int| (kept@[j].name@, kept@[j].template@)) =~= pre.take(
                    i as int,
                ).filter(|e: (Seq<char>, Seq<char>)| e.0 != name@),
            decreases self.macros@.len() - i,
        {
            proof {
                assert(pre.take(i + 1int).drop_last() =~= pre.take(i as int));
                reveal_with_fuel(Seq::filter, 2);
                assert(pre.take(i + 1int).last() == pre[i as int]);
            }
            if !str_eq(self.macros[i].name.as_str(), name) {
                let m = Macro {
                    name: self.macros[i].name.clone(),
                    template: self.macros[i].template.clone(),
                };
                kept.push(m);
            }
            proof {
                assert(Seq::new(kept@.len(), |j: int| (kept@[j].name@, kept@[j].template@))
                    =~= pre.take(i + 1int).filter(|e: (Seq<char>, Seq<char>)| e.0 != name@));
            }
            i = i + 1;
        }
        self.macros = kept;
        proof {
            assert(pre.take(pre.len() as int) =~= pre);
            assert(self@.macros =~= spec_unbind(pre, name@));
        }
    }

    /// Defines or redefines the abbreviation `name` as `expansion`.
    pub fn set_abbreviation(&mut self, name: String, expansion: String)
        ensures
            final(self)@.abbrs == spec_bind(old(self)@.abbrs, name@, expansion@),
            final(self)@.macros == old(self)@.macros,
            final(self)@.last_suggestion == old(self)@.last_suggestion,
            final(self)@.last_error == old(self)@.last_error,
    {
        match self.find_abbr_index(name.as_str()) {
            Some(i) => {
                self.abbreviations.set(i, (name, expansion));
                proof {
                    lemma_bind_at(old(self)@.abbrs, old(self)@.abbrs[i as int].0,
                        self@.abbrs[i as int].1, i as int);
                    assert(self@.abbrs =~= old(self)@.abbrs.update(i as int, (
                        old(self)@.abbrs[i as int].0,
                        self@.abbrs[i as int].1,
                    )));
                    assert(self@.macros =~= old(self)@.macros);
                }
            },
            None => {
                self.abbreviations.push((name, expansion));
                proof {
                    lemma_bind_absent(old(self)@.abbrs, self@.abbrs.last().0,
                        self@.abbrs.last().1);
                    assert(self@.abbrs =~= old(self)@.abbrs.push((self@.abbrs.last().0,
                        self@.abbrs.last().1)));
                    assert(self@.macros =~= old(self)@.macros);
                }
            },
        }
    }

    /// The expansion bound to the abbreviation `name`, if any.
    pub fn get_abbreviation(&self, name: &str) -> (r: Option<&String>)
        ensures
            match r {
                Some(s) => spec_lookup(self@.abbrs, name@) == Some(s@),
                None => spec_lookup(self@.abbrs, name@) is None,
            },
    {
        let mut i: usize = 0;
        while i < self.abbreviations.len()
            invariant
                i <= self.abbreviations@.len(),
                forall|j: int| 0 <= j < i ==> (#[trigger] self@.abbrs[j]).0 != name@,
            decreases self.abbreviations@.len() - i,
        {
            if str_eq(self.abbreviations[i].0.as_str(), name) {
                proof {
                    lemma_lookup_at(self@.abbrs, name@, i as int);
                }
                return Some(&self.abbreviations[i].1);
            }
            i = i + 1;
        }
        proof {
            lemma_lookup_absent(self@.abbrs, name@);
        }
        None
    }

    /// The defined macros, in definition order.
    pub fn list(&self) -> (r: &Vec<Macro>)
        ensures
            Seq::new(r@.len(), |i: int| (r@[i].name@, r@[i].template@)) == self@.macros,
    {
        &self.macros
    }

    /// The defined abbreviations, in definition order.
    pub fn abbreviations(&self) -> (r: &Vec<(String, String)>)
        ensures
            Seq::new(r@.len(), |i: int| (r@[i].0@, r@[i].1@)) == self@.abbrs,
    {
        &self.abbreviations
    }

    /// The template bound to the macro `name`, if any.
    fn find_macro(&self, name: &str) -> (r: Option<&String>)
        ensures
            match r {
                Some(s) => spec_lookup(self@.macros, name@) == Some(s@),
                None => spec_lookup(self@.macros, name@) is None,
            },
    {
        let mut i: usize = 0;
        while i < self.macros.len()
            invariant
                i <= self.macros@.len(),
                forall|j: int| 0 <= j < i ==> (#[trigger] self@.macros[j]).0 != name@,
            decreases self.macros@.len() - i,
        {
            if str_eq(self.macros[i].name.as_str(), name) {
                proof {
                    lemma_lookup_at(self@.macros, name@, i as int);
                }
                return Some(&self.macros[i].template);
            }
            i = i + 1;
        }
        proof {
            lemma_lookup_absent(self@.macros, name@);
        }
        None
    }

    /// Expands the line if its first word names a macro; `None` means the
    /// line is to be used unchanged.
    pub fn expand_macro(&self, input: &str) -> (r: Option<String>)
        ensures
            match r {
                Some(s) => spec_expand(self@.macros, input@) == Some(s@),
                None => spec_expand(self@.macros, input@) is None,
            },
    {
        let parts = split_ws(input);
        if parts.len() == 0 {
            return None;
        }
        proof {
            assert(strs_view(parts@)[0] == parts@[0]@);
        }
        let template = match self.find_macro(parts[0].as_str()) {
            Some(t) => t.clone(),
            None => {
                return None;
            },
        };
        let mut args: Vec<String> = Vec::new();
        let mut k: usize = 1;
        while k < parts.len()
            invariant
                1 <= k <= parts@.len(),
                args@.len() == k - 1,
                forall|j: int| 0 <= j < k - 1 ==> (#[trigger] args@[j])@ == parts@[j + 1]@,
            decreases parts@.len() - k,
        {
            args.push(parts[k].clone());
            k = k + 1;
        }
        proof {
            assert(strs_view(args@) =~= strs_view(parts@).drop_first());
        }
        let expanded = apply_template(&template, &args);
        proof {
            assert(spec_expand(self@.macros, input@) == Some(
                spec_apply_template(template@, strs_view(parts@).drop_first()),
            ));
        }
        Some(expanded)
    }

    /// Stores the failure context of a failed pipeline: the command's
    /// display text and its captured stderr.
    pub fn record_failure(&mut self, cmd: String, stderr: String)
        ensures
            final(self)@.last_error == Some((cmd@, stderr@)),
            final(self)@.last_suggestion == old(self)@.last_suggestion,
            final(self)@.macros == old(self)@.macros,
            final(self)@.abbrs == old(self)@.abbrs,
    {
        self.last_error = Some((cmd, stderr));
    }

    /// Clears the failure context after a successful foreground pipeline.
    pub fn record_success(&mut self)
        ensures
            final(self)@.last_error is None,
            final(self)@.last_suggestion is None,
            final(self)@.macros == old(self)@.macros,
            final(self)@.abbrs == old(self)@.abbrs,
    {
        self.last_error = None;
        self.last_suggestion = None;
    }

    /// Stores an externally produced suggestion for the next input line.
    pub fn set_last_suggestion(&mut self, s: String)
        ensures
            final(self)@.last_suggestion == Some(s@),
            final(self)@.last_error == old(self)@.last_error,
            final(self)@.macros == old(self)@.macros,
            final(self)@.abbrs == old(self)@.abbrs,
    {
        self.last_suggestion = Some(s);
    }

    /// The stored failure context, if any.
    pub fn last_error(&self) -> (r: Option<&(String, String)>)
        ensures
            match r {
                Some(e) => self@.last_error == Some((e.0@, e.1@)),
                None => self@.last_error is None,
            },
    {
        self.last_error.as_ref()
    }

    /// The stored suggestion, if any.
    pub fn last_suggestion(&self) -> (r: Option<&String>)
        ensures
            match r {
                Some(s) => self@.last_suggestion == Some(s@),
                None => self@.last_suggestion is None,
            },
    {
        self.last_suggestion.as_ref()
    }
}

/// Applies a macro template to the remaining words of the line, exactly as
/// [`spec_apply_template`] describes.
pub fn apply_template(template: &String, args: &Vec<String>) -> (r: String)
    ensures
        r@ == spec_apply_template(template@, strs_view(args@)),
{
    let tv = to_chars(template.as_str());
    if contains_char_exec(&tv, '$') {
        let mut cur = tv;
        let mut i: usize = 0;
        while i < args.len()
            invariant
                i <= args@.len(),
                spec_positional(template@, strs_view(args@), 0) == spec_positional(
                    cur@,
                    strs_view(args@),
                    i as int,
                ),
            decreases args@.len() - i,
        {
            let num = u64_to_string((i as u64) + 1);
            let mut pat: Vec<char> = Vec::new();
            pat.push('$');
            let numv = to_chars(num.as_str());
            push_all(&mut pat, &numv);
            proof {
                assert(pat@ =~= seq!['$'] + spec_u64_digits(i + 1int));
            }
            let argv = to_chars(args[i].as_str());
            let replaced = replace_chars(&cur, &pat, &argv);
            proof {
                assert(strs_view(args@)[i as int] == args@[i as int]@);
            }
            cur = replaced;
            i = i + 1;
        }
        let mut joined: Vec<String> = Vec::new();
        let mut k: usize = 0;
        while k < args.len()
            invariant
                k <= args@.len(),
                joined@.len() == k,
                forall|j: int| 0 <= j < k ==> (#[trigger] joined@[j])@ == args@[j]@,
            decreases args@.len() - k,
        {
            joined.push(args[k].clone());
            k = k + 1;
        }
        let joined_str = crate::text::join_strings(&joined, " ");
        let jv = to_chars(joined_str.as_str());
        let mut dollar: Vec<char> = Vec::new();
        dollar.push('$');
        proof {
            assert(dollar@ =~= seq!['$']);
            assert(strs_view(joined@) =~= strs_view(args@));
            reveal_strlit(" ");
            assert(" "@ =~= seq![' ']);
        }
        let out = replace_chars(&cur, &dollar, &jv);
        chars_to_string(&out)
    } else {
        if args.len() == 0 {
            template.clone()
        } else {
            let mut joined: Vec<String> = Vec::new();
            let mut k: usize = 0;
            while k < args.len()
                invariant
                    k <= args@.len(),
                    joined@.len() == k,
                    forall|j: int| 0 <= j < k ==> (#[trigger] joined@[j])@ == args@[j]@,
                decreases args@.len() - k,
            {
                joined.push(args[k].clone());
                k = k + 1;
            }
            let joined_str = crate::text::join_strings(&joined, " ");
            let mut out = template.clone();
            out.push(' ');
            out.append(joined_str.as_str());
            proof {
                assert(strs_view(joined@) =~= strs_view(args@));
                reveal_strlit(" ");
                assert(" "@ =~= seq![' ']);
                assert(out@ =~= template@ + seq![' '] + spec_join(strs_view(args@), seq![' ']));
            }
            out
        }
    }
}

} // verus!
