//! Plain-text and metadata extraction from an HTML page: the compute half
//! of the page reader. Tags are stripped, script and style bodies are
//! skipped, block tags become line breaks, and the `meta` tags yield the
//! page's title, preview image and description. The fetching itself is
//! I/O and lives outside the library.

use vstd::prelude::*;

use crate::text::{
    ascii_lower, chars_to_string, chars_to_string_range, find_at, find_at_exec, lemma_find_at,
    match_at, match_at_exec, push_all, scan, scan_exec, lemma_scan, spec_join, spec_split_char,
    spec_trim, split_char, strs_view, to_ascii_lower, to_chars, trim_range, CharClass,
};

verus! {

/// What the page's `meta` tags and `<title>` element say about it.
#[derive(Debug, Clone)]
pub struct PageMetadata {
    pub title: String,
    pub image_url: Option<String>,
    pub description: String,
}

/// The mathematical value of a [`PageMetadata`].
pub struct PageMetaModel {
    pub title: Seq<char>,
    pub image_url: Option<Seq<char>>,
    pub description: Seq<char>,
}

impl View for PageMetadata {
    type V = PageMetaModel;

    open spec fn view(&self) -> PageMetaModel {
        PageMetaModel {
            title: self.title@,
            image_url: match &self.image_url {
                Some(u) => Some(u@),
                None => None,
            },
            description: self.description@,
        }
    }
}

/// Whether `pat` occurs anywhere in `s`.
pub open spec fn contains_sub(s: Seq<char>, pat: Seq<char>) -> bool {
    find_at(s, pat, 0) >= 0
}

/// Whether `s` starts with `pat`.
pub open spec fn starts_with(s: Seq<char>, pat: Seq<char>) -> bool {
    match_at(s, pat, 0)
}

/// The value of the attribute `attr` inside an opening tag's text: the
/// characters between `attr="` and the next `"`, or nothing when the
/// attribute (or its closing quote) is missing.
pub open spec fn spec_extract_attr(tag: Seq<char>, attr: Seq<char>) -> Seq<char> {
    let pat = attr + "=\""@;
    let start = find_at(tag, pat, 0);
    if start >= 0 {
        let cs = start + pat.len();
        let e = scan(tag, cs, CharClass::NotChar('"'));
        if e < tag.len() {
            tag.subrange(cs, e)
        } else {
            Seq::empty()
        }
    } else {
        Seq::empty()
    }
}

/// Reads an attribute value out of a tag's text, as
/// [`spec_extract_attr`] describes.
pub fn extract_attr(tag: &str, attr: &str) -> (r: String)
    ensures
        r@ == spec_extract_attr(tag@, attr@),
{
    let tv = to_chars(tag);
    let mut pat = to_chars(attr);
    let eq_quote = to_chars("=\"");
    push_all(&mut pat, &eq_quote);
    let n = tv.len();
    match find_at_exec(&tv, &pat, 0) {
        Some(start) => {
            proof {
                lemma_find_at(tv@, pat@, 0);
                assert(start + pat@.len() <= n);
            }
            let cs = start + pat.len();
            let e = scan_exec(&tv, cs, CharClass::NotChar('"'));
            if e < tv.len() {
                chars_to_string_range(&tv, cs, e)
            } else {
                String::new()
            }
        },
        None => String::new(),
    }
}

/// The scanner's state, one character into the page at a time: whether the
/// scan is inside a tag, inside a script or style body (with its nesting
/// depth), the current tag's text, the visible text gathered so far, and
/// the metadata gathered so far.
pub struct ExtractState {
    pub in_tag: bool,
    pub in_skip: bool,
    pub depth: int,
    pub tag: Seq<char>,
    pub out: Seq<char>,
    pub title: Seq<char>,
    pub image: Option<Seq<char>>,
    pub desc: Seq<char>,
}

/// The state before the first character.
pub open spec fn extract_init() -> ExtractState {
    ExtractState {
        in_tag: false,
        in_skip: false,
        depth: 0,
        tag: Seq::empty(),
        out: Seq::empty(),
        title: Seq::empty(),
        image: None,
        desc: Seq::empty(),
    }
}

/// What closing a tag does to the state: `meta` tags yield metadata not
/// yet seen; `script`/`style` open a skipped body and their closers close
/// it; block tags become line breaks. The tag's text is matched in lower
/// case.
pub open spec fn apply_tag(st: ExtractState, tagl: Seq<char>) -> ExtractState {
    let title = if starts_with(tagl, "meta"@) && (contains_sub(tagl, "property=\"og:title\""@)
        || contains_sub(tagl, "name=\"title\""@)) && st.title.len() == 0 {
        spec_extract_attr(tagl, "content"@)
    } else {
        st.title
    };
    let image = if starts_with(tagl, "meta"@) && (contains_sub(tagl, "property=\"og:image\""@)
        || contains_sub(tagl, "name=\"image\""@)) && st.image is None {
        Some(spec_extract_attr(tagl, "content"@))
    } else {
        st.image
    };
    let desc = if starts_with(tagl, "meta"@) && (contains_sub(
        tagl,
        "property=\"og:description\""@,
    ) || contains_sub(tagl, "name=\"description\""@)) && st.desc.len() == 0 {
        spec_extract_attr(tagl, "content"@)
    } else {
        st.desc
    };
    let st2 = ExtractState { in_tag: false, title, image, desc, ..st };
    if starts_with(tagl, "script"@) || starts_with(tagl, "style"@) {
        ExtractState { in_skip: true, depth: st2.depth + 1, ..st2 }
    } else if tagl == "/script"@ || tagl == "/style"@ {
        let d = if st2.depth > 0 {
            st2.depth - 1
        } else {
            0
        };
        ExtractState { depth: d, in_skip: if d == 0 {
            false
        } else {
            st2.in_skip
        }, ..st2 }
    } else if tagl == "p"@ || tagl == "div"@ || tagl == "br"@ || tagl == "h1"@ || tagl == "h2"@
        || tagl == "h3"@ || tagl == "li"@ {
        ExtractState { out: st2.out.push('\n'), ..st2 }
    } else if tagl == "/p"@ || tagl == "/div"@ || tagl == "/h1"@ || tagl == "/h2"@ || tagl
        == "/h3"@ || tagl == "/li"@ {
        ExtractState { out: st2.out.push('\n'), ..st2 }
    } else {
        st2
    }
}

/// What one character of the page does to the state.
pub open spec fn extract_step(st: ExtractState, c: char) -> ExtractState {
    if c == '<' {
        ExtractState { in_tag: true, tag: Seq::empty(), ..st }
    } else if c == '>' {
        apply_tag(st, ascii_lower(st.tag))
    } else if st.in_tag {
        ExtractState { tag: st.tag.push(c), ..st }
    } else if !st.in_skip {
        ExtractState { out: st.out.push(c), ..st }
    } else {
        st
    }
}

/// The state after scanning `s` from position `i` onward.
pub open spec fn extract_run(s: Seq<char>, i: int, st: ExtractState) -> ExtractState
    decreases s.len() - i,
    when 0 <= i <= s.len()
{
    if i >= s.len() {
        st
    } else {
        extract_run(s, i + 1, extract_step(st, s[i]))
    }
}

/// The page title when no `meta` tag supplied one: the trimmed text
/// between the first `<title>` and the following `</title>`, matched
/// case-insensitively, read from the original text.
pub open spec fn spec_title_fallback(html: Seq<char>) -> Seq<char> {
    let lower = ascii_lower(html);
    let start = find_at(lower, "<title>"@, 0);
    if start >= 0 {
        let close = find_at(lower, "</title>"@, start);
        if close >= 0 && start + 7 <= close {
            spec_trim(html.subrange(start + 7, close))
        } else {
            Seq::empty()
        }
    } else {
        Seq::empty()
    }
}

/// Every line trimmed, blank lines dropped.
pub open spec fn clean_parts(parts: Seq<Seq<char>>) -> Seq<Seq<char>> {
    parts.map_values(|l: Seq<char>| spec_trim(l)).filter(|l: Seq<char>| l.len() > 0)
}

/// The visible text with every line trimmed and blank lines dropped.
pub open spec fn spec_clean_lines(out: Seq<char>) -> Seq<char> {
    spec_join(clean_parts(spec_split_char(out, '\n')), seq!['\n'])
}

/// What the whole extraction returns for a page.
pub open spec fn spec_extract_content(html: Seq<char>) -> (Seq<char>, PageMetaModel) {
    let fin = extract_run(html, 0, extract_init());
    let title = if fin.title.len() == 0 {
        spec_title_fallback(html)
    } else {
        fin.title
    };
    (
        spec_clean_lines(fin.out),
        PageMetaModel { title, image_url: fin.image, description: fin.desc },
    )
}

struct ExtractExec {
    in_tag: bool,
    in_skip: bool,
    depth: usize,
    tag: Vec<char>,
    out: Vec<char>,
    title: Vec<char>,
    image: Option<Vec<char>>,
    desc: Vec<char>,
}

impl View for ExtractExec {
    type V = ExtractState;

    closed spec fn view(&self) -> ExtractState {
        ExtractState {
            in_tag: self.in_tag,
            in_skip: self.in_skip,
            depth: self.depth as int,
            tag: self.tag@,
            out: self.out@,
            title: self.title@,
            image: match &self.image {
                Some(v) => Some(v@),
                None => None,
            },
            desc: self.desc@,
        }
    }
}

fn contains_sub_exec(v: &Vec<char>, pat: &Vec<char>) -> (r: bool)
    ensures
        r == contains_sub(v@, pat@),
{
    find_at_exec(v, pat, 0).is_some()
}

#[verifier::rlimit(100)]
fn close_tag(st: &mut ExtractExec)
    requires
        old(st)@.depth < usize::MAX,
    ensures
        final(st)@ == extract_step(old(st)@, '>'),
{
    let ghost pre = st@;
    let ghost tagl0 = ascii_lower(pre.tag);
    let tagl = to_ascii_lower(&st.tag);
    let is_meta = match_at_exec(&tagl, &to_chars("meta"), 0);
    if is_meta {
        if (contains_sub_exec(&tagl, &to_chars("property=\"og:title\"")) || contains_sub_exec(
            &tagl,
            &to_chars("name=\"title\""),
        )) && st.title.len() == 0 {
            let tag_str = chars_to_string(&tagl);
            st.title = to_chars(extract_attr(tag_str.as_str(), "content").as_str());
        }
        if (contains_sub_exec(&tagl, &to_chars("property=\"og:image\"")) || contains_sub_exec(
            &tagl,
            &to_chars("name=\"image\""),
        )) && st.image.is_none() {
            let tag_str = chars_to_string(&tagl);
            st.image = Some(to_chars(extract_attr(tag_str.as_str(), "content").as_str()));
        }
        if (contains_sub_exec(&tagl, &to_chars("property=\"og:description\""))
            || contains_sub_exec(&tagl, &to_chars("name=\"description\""))) && st.desc.len()
            == 0 {
            let tag_str = chars_to_string(&tagl);
            st.desc = to_chars(extract_attr(tag_str.as_str(), "content").as_str());
        }
    }
    st.in_tag = false;
    if match_at_exec(&tagl, &to_chars("script"), 0) || match_at_exec(&tagl, &to_chars("style"), 0)
    {
        st.in_skip = true;
        st.depth = st.depth + 1;
    } else if chars_eq_lit(&tagl, "/script") || chars_eq_lit(&tagl, "/style") {
        st.depth = if st.depth > 0 {
            st.depth - 1
        } else {
            0
        };
        if st.depth == 0 {
            st.in_skip = false;
        }
    } else if chars_eq_lit(&tagl, "p") || chars_eq_lit(&tagl, "div") || chars_eq_lit(&tagl, "br")
        || chars_eq_lit(&tagl, "h1") || chars_eq_lit(&tagl, "h2") || chars_eq_lit(&tagl, "h3")
        || chars_eq_lit(&tagl, "li") {
        st.out.push('\n');
    } else if chars_eq_lit(&tagl, "/p") || chars_eq_lit(&tagl, "/div") || chars_eq_lit(
        &tagl,
        "/h1",
    ) || chars_eq_lit(&tagl, "/h2") || chars_eq_lit(&tagl, "/h3") || chars_eq_lit(&tagl, "/li") {
        st.out.push('\n');
    }
    proof {
        assert(tagl@ == tagl0);
        assert(st@ == apply_tag(pre, tagl0));
    }
}

fn chars_eq_lit(v: &Vec<char>, lit: &str) -> (r: bool)
    ensures
        r == (v@ == lit@),
{
    let lv = to_chars(lit);
    if v.len() != lv.len() {
        return false;
    }
    let mut i: usize = 0;
    while i < v.len()
        invariant
            i <= v@.len(),
            v@.len() == lv@.len(),
            lv@ == lit@,
            forall|k: int| 0 <= k < i ==> v@[k] == lv@[k],
        decreases v@.len() - i,
    {
        if v[i] != lv[i] {
            return false;
        }
        i = i + 1;
    }
    proof {
        assert(v@ =~= lit@);
    }
    true
}

/// Strips an HTML page to its visible text and metadata, as
/// [`spec_extract_content`] describes: tags removed, script and style
/// bodies skipped, block tags turned into line breaks, lines trimmed and
/// blank lines dropped, plus the title (with a `<title>` fallback), the
/// preview image and the description.
pub fn extract_content(html: &str) -> (r: (String, PageMetadata))
    ensures
        r.0@ == spec_extract_content(html@).0,
        r.1@.title == spec_extract_content(html@).1.title,
        r.1@.image_url == spec_extract_content(html@).1.image_url,
        r.1@.description == spec_extract_content(html@).1.description,
{
    let hv = to_chars(html);
    let mut st = ExtractExec {
        in_tag: false,
        in_skip: false,
        depth: 0,
        tag: Vec::new(),
        out: Vec::new(),
        title: Vec::new(),
        image: None,
        desc: Vec::new(),
    };
    proof {
        assert(st@.tag =~= Seq::<char>::empty());
        assert(st@.out =~= Seq::<char>::empty());
        assert(st@.title =~= Seq::<char>::empty());
        assert(st@.desc =~= Seq::<char>::empty());
        assert(st@ == extract_init());
    }
    let mut i: usize = 0;
    while i < hv.len()
        invariant
            i <= hv@.len(),
            hv@ == html@,
            st@.depth <= i as int,
            extract_run(html@, 0, extract_init()) == extract_run(html@, i as int, st@),
        decreases hv@.len() - i,
    {
        let c = hv[i];
        let ghost pre = st@;
        if c == '<' {
            st.in_tag = true;
            st.tag = Vec::new();
            proof {
                assert(st@.tag =~= Seq::<char>::empty());
            }
        } else if c == '>' {
            close_tag(&mut st);
        } else if st.in_tag {
            st.tag.push(c);
        } else if !st.in_skip {
            st.out.push(c);
        }
        proof {
            assert(st@ == extract_step(pre, c));
            assert(extract_run(html@, i as int, pre) == extract_run(html@, i + 1int, st@));
        }
        i = i + 1;
    }
    let ghost fin = extract_run(html@, 0, extract_init());
    proof {
        assert(fin == st@);
    }
    // Title fallback from the `<title>` element.
    if st.title.len() == 0 {
        let lower = to_ascii_lower(&hv);
        let open_pat = to_chars("<title>");
        let close_pat = to_chars("</title>");
        if let Some(start) = find_at_exec(&lower, &open_pat, 0) {
            if let Some(close) = find_at_exec(&lower, &close_pat, start) {
                proof {
                    lemma_find_at(lower@, open_pat@, 0);
                    lemma_find_at(lower@, close_pat@, start as int);
                }
                if close - start >= 7 {
                    let (a, b) = trim_range(&hv, start + 7, close);
                    let title = chars_to_string_range(&hv, a, b);
                    st.title = to_chars(title.as_str());
                    proof {
                        assert(st@.title == spec_title_fallback(html@));
                    }
                }
            }
        }
    }
    // Clean the visible text: trim each line, drop the blank ones.
    let out_str = chars_to_string(&st.out);
    let parts = split_char(out_str.as_str(), '\n');
    let ghost cleaned = clean_parts(spec_split_char(fin.out, '\n'));
    let mut kept: Vec<String> = Vec::new();
    let mut k: usize = 0;
    proof {
        assert(clean_parts(strs_view(parts@).take(0int)) =~= strs_view(kept@)) by {
            reveal_with_fuel(Seq::filter, 2);
            assert(strs_view(parts@).take(0int).map_values(|l: Seq<char>| spec_trim(l)) =~= Seq::<
                Seq<char>,
            >::empty());
        };
    }
    while k < parts.len()
        invariant
            k <= parts@.len(),
            strs_view(parts@) == spec_split_char(fin.out, '\n'),
            clean_parts(strs_view(parts@).take(k as int)) =~= strs_view(kept@),
        decreases parts@.len() - k,
    {
        let pv = to_chars(parts[k].as_str());
        let (a, b) = trim_range(&pv, 0, pv.len());
        proof {
            assert(pv@.subrange(0, pv@.len() as int) =~= pv@);
            let pm = strs_view(parts@);
            let mapped = pm.take(k + 1int).map_values(|l: Seq<char>| spec_trim(l));
            assert(mapped.drop_last() =~= pm.take(k as int).map_values(
                |l: Seq<char>| spec_trim(l),
            ));
            assert(mapped.last() == spec_trim(pm[k as int]));
            reveal_with_fuel(Seq::filter, 2);
        }
        if b > a {
            let piece = chars_to_string_range(&pv, a, b);
            kept.push(piece);
            proof {
                assert(strs_view(kept@) =~= strs_view(kept@.drop_last()).push(spec_trim(
                    strs_view(parts@)[k as int],
                )));
            }
        }
        k = k + 1;
    }
    proof {
        assert(strs_view(parts@).take(parts@.len() as int) =~= strs_view(parts@));
        assert(strs_view(kept@) =~= cleaned);
    }
    let text = crate::text::join_strings(&kept, "\n");
    proof {
        reveal_strlit("\n");
        assert("\n"@ =~= seq!['\n']);
    }
    let meta = PageMetadata {
        title: chars_to_string(&st.title),
        image_url: match &st.image {
            Some(v) => Some(chars_to_string(v)),
            None => None,
        },
        description: chars_to_string(&st.desc),
    };
    (text, meta)
}

} // verus!
