//! The prompt: its parts, their plain and coloured renderings, and the
//! path-shortening rule that keeps only the first letter of every
//! intermediate directory.
//!
//! The surrounding binary gathers the parts (user, hostname, working
//! directory, git branch) from the system and renders them through the
//! functions here.

use vstd::prelude::*;

use crate::text::{
    chars_to_string, chars_to_string_range, match_at, match_at_exec, spec_join, spec_split_char,
    split_char, str_eq, strs_view, to_chars,
};

verus! {

/// The four pieces the prompt is assembled from.
#[derive(Clone, Debug)]
pub struct PromptParts {
    pub user: String,
    pub hostname: String,
    pub path: String,
    pub git: String,
}

/// The mathematical value of [`PromptParts`].
pub struct PromptPartsModel {
    pub user: Seq<char>,
    pub hostname: Seq<char>,
    pub path: Seq<char>,
    pub git: Seq<char>,
}

impl View for PromptParts {
    type V = PromptPartsModel;

    open spec fn view(&self) -> PromptPartsModel {
        PromptPartsModel {
            user: self.user@,
            hostname: self.hostname@,
            path: self.path@,
            git: self.git@,
        }
    }
}

/// The plain prompt: shell glyph, `user@host`, the path, the git section
/// in parentheses when present, and the prompt arrow.
pub open spec fn spec_plain_prompt(p: PromptPartsModel) -> Seq<char> {
    "🐚 "@ + p.user + "@"@ + p.hostname + " "@ + p.path + " "@ + (if p.git.len() == 0 {
        Seq::<char>::empty()
    } else {
        "("@ + p.git + ") "@
    }) + "> "@
}

/// The coloured prompt: the same pieces wrapped in terminal colour
/// sequences, and — when the terminal supports semantic zones — the
/// prompt-start and command-start markers around them.
pub open spec fn spec_colored_prompt(p: PromptPartsModel, semantic: bool) -> Seq<char> {
    let p_start = if semantic {
        "\x01\x1b]133;A\x07\x02"@
    } else {
        Seq::<char>::empty()
    };
    let c_start = if semantic {
        "\x01\x1b]133;B\x07\x02"@
    } else {
        Seq::<char>::empty()
    };
    let teal = "\x01\x1b[38;2;110;209;195m\x02"@;
    let gray = "\x01\x1b[90m\x02"@;
    let reset = "\x01\x1b[0m\x02"@;
    let bold_teal = "\x01\x1b[1;38;2;110;209;195m\x02"@;
    let user_host = teal + p.user + "@"@ + gray + p.hostname + reset;
    let path_str = bold_teal + p.path + reset;
    let git_part = if p.git.len() > 0 {
        " "@ + gray + "("@ + p.git + ")"@ + reset
    } else {
        Seq::<char>::empty()
    };
    p_start + "🐚"@ + " "@ + user_host + " "@ + path_str + git_part + teal + ">"@ + " "@ + reset
        + c_start
}

impl PromptParts {
    /// An empty set of parts.
    pub fn new() -> (r: PromptParts)
        ensures
            r@.user == Seq::<char>::empty(),
            r@.hostname == Seq::<char>::empty(),
            r@.path == Seq::<char>::empty(),
            r@.git == Seq::<char>::empty(),
    {
        PromptParts {
            user: String::new(),
            hostname: String::new(),
            path: String::new(),
            git: String::new(),
        }
    }

    /// Renders the plain (uncoloured) prompt.
    pub fn to_plain_string(&self) -> (r: String)
        ensures
            r@ == spec_plain_prompt(self@),
    {
        let mut r = String::from_str("🐚 ");
        r.append(self.user.as_str());
        r.append("@");
        r.append(self.hostname.as_str());
        r.append(" ");
        r.append(self.path.as_str());
        r.append(" ");
        if !self.git.as_str().is_empty() {
            r.append("(");
            r.append(self.git.as_str());
            r.append(") ");
        }
        r.append("> ");
        proof {
            assert(r@ =~= spec_plain_prompt(self@));
        }
        r
    }

    /// Renders the coloured prompt, with semantic zone markers when the
    /// terminal understands them.
    pub fn to_colored_string(&self, semantic: bool) -> (r: String)
        ensures
            r@ == spec_colored_prompt(self@, semantic),
    {
        let mut r = String::new();
        if semantic {
            r.append("\x01\x1b]133;A\x07\x02");
        }
        r.append("🐚");
        r.append(" ");
        r.append("\x01\x1b[38;2;110;209;195m\x02");
        r.append(self.user.as_str());
        r.append("@");
        r.append("\x01\x1b[90m\x02");
        r.append(self.hostname.as_str());
        r.append("\x01\x1b[0m\x02");
        r.append(" ");
        r.append("\x01\x1b[1;38;2;110;209;195m\x02");
        r.append(self.path.as_str());
        r.append("\x01\x1b[0m\x02");
        if !self.git.as_str().is_empty() {
            r.append(" ");
            r.append("\x01\x1b[90m\x02");
            r.append("(");
            r.append(self.git.as_str());
            r.append(")");
            r.append("\x01\x1b[0m\x02");
        }
        r.append("\x01\x1b[38;2;110;209;195m\x02");
        r.append(">");
        r.append(" ");
        r.append("\x01\x1b[0m\x02");
        if semantic {
            r.append("\x01\x1b]133;B\x07\x02");
        }
        proof {
            assert(r@ =~= spec_colored_prompt(self@, semantic));
        }
        r
    }
}

/// What one path component contributes to the shortened display: the
/// leading empty component of an absolute path vanishes, `~` stays, the
/// last component stays whole, every other nonempty component shrinks to
/// its first character.
pub open spec fn spec_short_piece(parts: Seq<Seq<char>>, i: int) -> Option<Seq<char>> {
    let p = parts[i];
    if p.len() == 0 && i == 0 {
        None
    } else if p == seq!['~'] {
        Some(seq!['~'])
    } else if i == parts.len() - 1 {
        Some(p)
    } else if p.len() > 0 {
        Some(seq![p[0]])
    } else {
        None
    }
}

/// The shortened components from index `i` on.
pub open spec fn spec_shortened(parts: Seq<Seq<char>>, i: int) -> Seq<Seq<char>>
    decreases parts.len() - i,
    when 0 <= i <= parts.len()
{
    if i >= parts.len() {
        Seq::empty()
    } else {
        match spec_short_piece(parts, i) {
            Some(x) => seq![x] + spec_shortened(parts, i + 1),
            None => spec_shortened(parts, i + 1),
        }
    }
}

/// The display form of a path: the home directory prefix becomes `~`, and
/// every directory on the way but the last shrinks to its first letter.
pub open spec fn spec_shorten_path(path: Seq<char>, home: Seq<char>) -> Seq<char> {
    let rel = if match_at(path, home, 0) {
        seq!['~'] + path.skip(home.len() as int)
    } else {
        path
    };
    if rel == seq!['/'] || rel == seq!['~'] {
        rel
    } else {
        let parts = spec_split_char(rel, '/');
        let joined = spec_join(spec_shortened(parts, 0), seq!['/']);
        if rel.len() > 0 && rel[0] == '/' {
            seq!['/'] + joined
        } else {
            joined
        }
    }
}

/// Shortens a path for the prompt, as [`spec_shorten_path`] describes.
pub fn shorten_path(path: &str, home: &str) -> (r: String)
    ensures
        r@ == spec_shorten_path(path@, home@),
{
    let pv = to_chars(path);
    let hv = to_chars(home);
    let mut rel: Vec<char> = Vec::new();
    if match_at_exec(&pv, &hv, 0) {
        rel.push('~');
        let mut i: usize = hv.len();
        while i < pv.len()
            invariant
                hv@.len() <= i <= pv@.len(),
                rel@ == seq!['~'] + pv@.subrange(hv@.len() as int, i as int),
            decreases pv@.len() - i,
        {
            rel.push(pv[i]);
            proof {
                assert(rel@ =~= seq!['~'] + pv@.subrange(hv@.len() as int, i + 1int));
            }
            i = i + 1;
        }
        proof {
            assert(pv@.subrange(hv@.len() as int, pv@.len() as int) =~= pv@.skip(
                hv@.len() as int,
            ));
        }
    } else {
        let mut i: usize = 0;
        while i < pv.len()
            invariant
                i <= pv@.len(),
                rel@ == pv@.take(i as int),
            decreases pv@.len() - i,
        {
            rel.push(pv[i]);
            proof {
                assert(rel@ =~= pv@.take(i + 1int));
            }
            i = i + 1;
        }
        proof {
            assert(pv@.take(pv@.len() as int) =~= pv@);
        }
    }
    if rel.len() == 1 && (rel[0] == '/' || rel[0] == '~') {
        proof {
            if rel@[0] == '/' {
                assert(rel@ =~= seq!['/']);
            } else {
                assert(rel@ =~= seq!['~']);
            }
        }
        return chars_to_string(&rel);
    }
    proof {
        assert(rel@ != seq!['/'] && rel@ != seq!['~']);
    }
    let rel_str = chars_to_string(&rel);
    let parts = split_char(rel_str.as_str(), '/');
    let ghost pm = strs_view(parts@);
    let mut shortened: Vec<String> = Vec::new();
    let mut i: usize = 0;
    proof {
        assert(strs_view(shortened@) =~= Seq::<Seq<char>>::empty());
        assert(spec_shortened(pm, 0) =~= strs_view(shortened@) + spec_shortened(pm, 0int));
    }
    while i < parts.len()
        invariant
            i <= parts@.len(),
            pm == strs_view(parts@),
            pm.len() == parts@.len(),
            spec_shortened(pm, 0) =~= strs_view(shortened@) + spec_shortened(pm, i as int),
        decreases parts@.len() - i,
    {
        let p = to_chars(parts[i].as_str());
        proof {
            assert(pm[i as int] == parts@[i as int]@);
        }
        if p.len() == 0 && i == 0 {
            proof {
                assert(spec_short_piece(pm, i as int) is None);
            }
        } else if p.len() == 1 && p[0] == '~' {
            proof {
                assert(pm[i as int] =~= seq!['~']);
                assert(spec_short_piece(pm, i as int) == Some(seq!['~']));
            }
            shortened.push(String::from_str("~"));
            proof {
                reveal_strlit("~");
                assert("~"@ =~= seq!['~']);
                assert(strs_view(shortened@) =~= strs_view(shortened@.drop_last()).push(
                    seq!['~'],
                ));
            }
        } else if i == parts.len() - 1 {
            proof {
                assert(pm[i as int] != seq!['~']);
                assert(spec_short_piece(pm, i as int) == Some(pm[i as int]));
            }
            shortened.push(parts[i].clone());
            proof {
                assert(strs_view(shortened@) =~= strs_view(shortened@.drop_last()).push(
                    pm[i as int],
                ));
            }
        } else if p.len() > 0 {
            proof {
                assert(pm[i as int] != seq!['~']);
                assert(spec_short_piece(pm, i as int) == Some(seq![pm[i as int][0]]));
            }
            let first = chars_to_string_range(&p, 0, 1);
            shortened.push(first);
            proof {
                assert(p@.subrange(0, 1) =~= seq![pm[i as int][0]]);
                assert(strs_view(shortened@) =~= strs_view(shortened@.drop_last()).push(
                    seq![pm[i as int][0]],
                ));
            }
        } else {
            proof {
                assert(spec_short_piece(pm, i as int) is None);
            }
        }
        i = i + 1;
    }
    proof {
        assert(spec_shortened(pm, parts@.len() as int) =~= Seq::<Seq<char>>::empty());
        assert(strs_view(shortened@) =~= spec_shortened(pm, 0));
    }
    let joined = crate::text::join_strings(&shortened, "/");
    proof {
        reveal_strlit("/");
        assert("/"@ =~= seq!['/']);
    }
    if rel.len() > 0 && rel[0] == '/' {
        let mut r = String::from_str("/");
        r.append(joined.as_str());
        proof {
            assert(r@ =~= seq!['/'] + joined@);
        }
        r
    } else {
        joined
    }
}

} // verus!
