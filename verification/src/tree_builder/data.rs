//! What a doctype says about the document.

use vstd::prelude::*;
use crate::tokenizer::interface::{Doctype, DoctypeView, opt_text};
use crate::tree_builder::interface::QuirksMode;
use crate::util::str::{is_prefix, lower, lower_ascii, lower_text, same_text, to_chars};

verus! {

/// Public identifiers, in small letters, that begin like this call for quirks mode.
pub open spec fn quirky_public_prefix(p: Seq<char>) -> bool {
    ||| "-//advasoft ltd//dtd html 3.0 aswedit + extensions//"@.is_prefix_of(p)
    ||| "-//as//dtd html 3.0 aswedit + extensions//"@.is_prefix_of(p)
    ||| "-//ietf//dtd html 2.0 level 1//"@.is_prefix_of(p)
    ||| "-//ietf//dtd html 2.0 level 2//"@.is_prefix_of(p)
    ||| "-//ietf//dtd html 2.0 strict level 1//"@.is_prefix_of(p)
    ||| "-//ietf//dtd html 2.0 strict level 2//"@.is_prefix_of(p)
    ||| "-//ietf//dtd html 2.0 strict//"@.is_prefix_of(p)
    ||| "-//ietf//dtd html 2.0//"@.is_prefix_of(p)
    ||| "-//ietf//dtd html 2.1e//"@.is_prefix_of(p)
    ||| "-//ietf//dtd html 3.0//"@.is_prefix_of(p)
    ||| "-//ietf//dtd html 3.2 final//"@.is_prefix_of(p)
    ||| "-//ietf//dtd html 3.2//"@.is_prefix_of(p)
    ||| "-//ietf//dtd html 3//"@.is_prefix_of(p)
    ||| "-//ietf//dtd html level 0//"@.is_prefix_of(p)
    ||| "-//ietf//dtd html level 1//"@.is_prefix_of(p)
    ||| "-//ietf//dtd html level 2//"@.is_prefix_of(p)
    ||| "-//ietf//dtd html level 3//"@.is_prefix_of(p)
    ||| "-//ietf//dtd html strict level 0//"@.is_prefix_of(p)
    ||| "-//ietf//dtd html strict level 1//"@.is_prefix_of(p)
    ||| "-//ietf//dtd html strict level 2//"@.is_prefix_of(p)
    ||| "-//ietf//dtd html strict level 3//"@.is_prefix_of(p)
    ||| "-//ietf//dtd html strict//"@.is_prefix_of(p)
    ||| "-//ietf//dtd html//"@.is_prefix_of(p)
    ||| "-//metrius//dtd metrius presentational//"@.is_prefix_of(p)
    ||| "-//microsoft//dtd internet explorer 2.0 html strict//"@.is_prefix_of(p)
    ||| "-//microsoft//dtd internet explorer 2.0 html//"@.is_prefix_of(p)
    ||| "-//microsoft//dtd internet explorer 2.0 tables//"@.is_prefix_of(p)
    ||| "-//microsoft//dtd internet explorer 3.0 html strict//"@.is_prefix_of(p)
    ||| "-//microsoft//dtd internet explorer 3.0 html//"@.is_prefix_of(p)
    ||| "-//microsoft//dtd internet explorer 3.0 tables//"@.is_prefix_of(p)
    ||| "-//netscape comm. corp.//dtd html//"@.is_prefix_of(p)
    ||| "-//netscape comm. corp.//dtd strict html//"@.is_prefix_of(p)
    ||| "-//o'reilly and associates//dtd html 2.0//"@.is_prefix_of(p)
    ||| "-//o'reilly and associates//dtd html extended 1.0//"@.is_prefix_of(p)
    ||| "-//o'reilly and associates//dtd html extended relaxed 1.0//"@.is_prefix_of(p)
    ||| "-//softquad software//dtd hotmetal pro 6.0::19990601::extensions to html 4.0//"@.is_prefix_of(p)
    ||| "-//softquad//dtd hotmetal pro 4.0::19971010::extensions to html 4.0//"@.is_prefix_of(p)
    ||| "-//spyglass//dtd html 2.0 extended//"@.is_prefix_of(p)
    ||| "-//sq//dtd html 2.0 hotmetal + extensions//"@.is_prefix_of(p)
    ||| "-//sun microsystems corp.//dtd hotjava html//"@.is_prefix_of(p)
    ||| "-//sun microsystems corp.//dtd hotjava strict html//"@.is_prefix_of(p)
    ||| "-//w3c//dtd html 3 1995-03-24//"@.is_prefix_of(p)
    ||| "-//w3c//dtd html 3.2 draft//"@.is_prefix_of(p)
    ||| "-//w3c//dtd html 3.2 final//"@.is_prefix_of(p)
    ||| "-//w3c//dtd html 3.2//"@.is_prefix_of(p)
    ||| "-//w3c//dtd html 3.2s draft//"@.is_prefix_of(p)
    ||| "-//w3c//dtd html 4.0 frameset//"@.is_prefix_of(p)
    ||| "-//w3c//dtd html 4.0 transitional//"@.is_prefix_of(p)
    ||| "-//w3c//dtd html experimental 19960712//"@.is_prefix_of(p)
    ||| "-//w3c//dtd html experimental 970421//"@.is_prefix_of(p)
    ||| "-//w3c//dtd w3 html//"@.is_prefix_of(p)
    ||| "-//w3o//dtd w3 html 3.0//"@.is_prefix_of(p)
    ||| "-//webtechs//dtd mozilla html 2.0//"@.is_prefix_of(p)
    ||| "-//webtechs//dtd mozilla html//"@.is_prefix_of(p)
}

/// Public identifiers, in small letters, that call for quirks mode.
pub open spec fn quirky_public(p: Seq<char>) -> bool {
    ||| p == "-//w3o//dtd w3 html strict 3.0//en//"@
    ||| p == "-/w3c/dtd html 4.0 transitional/en"@
    ||| p == "html"@
}

/// System identifiers, in small letters, that call for quirks mode.
pub open spec fn quirky_system(s: Seq<char>) -> bool {
    s == "http://www.ibm.com/data/dtd/v11/ibmxhtml1-transitional.dtd"@
}

/// Public identifiers, in small letters, that begin like this call for limited quirks
/// mode.
pub open spec fn limited_quirky_public_prefix(p: Seq<char>) -> bool {
    ||| "-//w3c//dtd xhtml 1.0 frameset//"@.is_prefix_of(p)
    ||| "-//w3c//dtd xhtml 1.0 transitional//"@.is_prefix_of(p)
}

/// Public identifiers, in small letters, that begin like this call for quirks mode if
/// there is no system identifier, and for limited quirks mode if there is one.
pub open spec fn html4_public_prefix(p: Seq<char>) -> bool {
    ||| "-//w3c//dtd html 4.01 frameset//"@.is_prefix_of(p)
    ||| "-//w3c//dtd html 4.01 transitional//"@.is_prefix_of(p)
}

/// The doctypes that are no error.
pub open spec fn doctype_is_fine(d: DoctypeView) -> bool {
    &&& d.name == Some("html"@)
    &&& {
        ||| d.public_id == None::<Seq<char>> && d.system_id == None::<Seq<char>>
        ||| d.public_id == None::<Seq<char>> && d.system_id == Some("about:legacy-compat"@)
        ||| d.public_id == Some("-//W3C//DTD HTML 4.0//EN"@) && d.system_id == None::<Seq<char>>
        ||| d.public_id == Some("-//W3C//DTD HTML 4.0//EN"@) && d.system_id == Some("http://www.w3.org/TR/REC-html40/strict.dtd"@)
        ||| d.public_id == Some("-//W3C//DTD HTML 4.01//EN"@) && d.system_id == None::<Seq<char>>
        ||| d.public_id == Some("-//W3C//DTD HTML 4.01//EN"@) && d.system_id == Some("http://www.w3.org/TR/html4/strict.dtd"@)
        ||| d.public_id == Some("-//W3C//DTD XHTML 1.0 Strict//EN"@) && d.system_id == Some("http://www.w3.org/TR/xhtml1/DTD/xhtml1-strict.dtd"@)
        ||| d.public_id == Some("-//W3C//DTD XHTML 1.1//EN"@) && d.system_id == Some("http://www.w3.org/TR/xhtml11/DTD/xhtml11.dtd"@)
    }
}

/// An optional text in small letters.
pub open spec fn opt_lower(s: Option<Seq<char>>) -> Option<Seq<char>> {
    match s {
        Some(t) => Some(lower_text(t)),
        None => None,
    }
}

/// The mode that a doctype calls for.
pub open spec fn doctype_quirks(d: DoctypeView, iframe_srcdoc: bool) -> QuirksMode {
    let public = opt_lower(d.public_id);
    let system = opt_lower(d.system_id);
    if d.force_quirks || d.name != Some("html"@) {
        QuirksMode::Quirks
    } else if iframe_srcdoc {
        QuirksMode::NoQuirks
    } else if public is Some && quirky_public(public->0) {
        QuirksMode::Quirks
    } else if system is Some && quirky_system(system->0) {
        QuirksMode::Quirks
    } else if public is Some && quirky_public_prefix(public->0) {
        QuirksMode::Quirks
    } else if public is Some && limited_quirky_public_prefix(public->0) {
        QuirksMode::LimitedQuirks
    } else if public is Some && html4_public_prefix(public->0) {
        if system is None {
            QuirksMode::Quirks
        } else {
            QuirksMode::LimitedQuirks
        }
    } else {
        QuirksMode::NoQuirks
    }
}

/// Does `s` begin with `prefix`?
fn has_prefix(s: &Vec<char>, prefix: &str) -> (r: bool)
    ensures
        r == prefix@.is_prefix_of(s@),
{
    is_prefix(&to_chars(prefix), s)
}

/// Is the text `s`?
fn text_is(t: &Vec<char>, s: &str) -> (r: bool)
    ensures
        r == (t@ == s@),
{
    let chars = to_chars(s);
    assert(t@.subrange(0, t@.len() as int) =~= t@);
    chars.len() == t.len() && is_prefix(&chars, t)
}

/// Is there a text, and is it `s`?
fn opt_is(t: &Option<String>, s: &str) -> (r: bool)
    ensures
        r == (opt_text(*t) == Some(s@)),
{
    match t {
        Some(t) => same_text(t.as_str(), s),
        None => false,
    }
}

/// An optional text in small letters.
fn opt_to_lower(t: &Option<String>) -> (r: Option<Vec<char>>)
    ensures
        (match r {
            Some(v) => Some(v@),
            None => None,
        }) == opt_lower(opt_text(*t)),
{
    match t {
        None => None,
        Some(t) => {
            let chars = to_chars(t.as_str());
            let mut v: Vec<char> = Vec::new();
            let mut i: usize = 0;
            while i < chars.len()
                invariant
                    i <= chars@.len(),
                    v@.len() == i,
                    forall|j: int| 0 <= j < i ==> #[trigger] v@[j] == lower(chars@[j]),
                decreases chars@.len() - i,
            {
                v.push(lower_ascii(chars[i]));
                i += 1;
            }
            assert(v@ =~= lower_text(t@));
            Some(v)
        },
    }
}

fn has_quirky_public_prefix(p: &Vec<char>) -> (r: bool)
    ensures
        r == quirky_public_prefix(p@),
{
    has_prefix(p, "-//advasoft ltd//dtd html 3.0 aswedit + extensions//") ||
        has_prefix(p, "-//as//dtd html 3.0 aswedit + extensions//") ||
        has_prefix(p, "-//ietf//dtd html 2.0 level 1//") ||
        has_prefix(p, "-//ietf//dtd html 2.0 level 2//") ||
        has_prefix(p, "-//ietf//dtd html 2.0 strict level 1//") ||
        has_prefix(p, "-//ietf//dtd html 2.0 strict level 2//") ||
        has_prefix(p, "-//ietf//dtd html 2.0 strict//") ||
        has_prefix(p, "-//ietf//dtd html 2.0//") ||
        has_prefix(p, "-//ietf//dtd html 2.1e//") ||
        has_prefix(p, "-//ietf//dtd html 3.0//") ||
        has_prefix(p, "-//ietf//dtd html 3.2 final//") ||
        has_prefix(p, "-//ietf//dtd html 3.2//") ||
        has_prefix(p, "-//ietf//dtd html 3//") ||
        has_prefix(p, "-//ietf//dtd html level 0//") ||
        has_prefix(p, "-//ietf//dtd html level 1//") ||
        has_prefix(p, "-//ietf//dtd html level 2//") ||
        has_prefix(p, "-//ietf//dtd html level 3//") ||
        has_prefix(p, "-//ietf//dtd html strict level 0//") ||
        has_prefix(p, "-//ietf//dtd html strict level 1//") ||
        has_prefix(p, "-//ietf//dtd html strict level 2//") ||
        has_prefix(p, "-//ietf//dtd html strict level 3//") ||
        has_prefix(p, "-//ietf//dtd html strict//") ||
        has_prefix(p, "-//ietf//dtd html//") ||
        has_prefix(p, "-//metrius//dtd metrius presentational//") ||
        has_prefix(p, "-//microsoft//dtd internet explorer 2.0 html strict//") ||
        has_prefix(p, "-//microsoft//dtd internet explorer 2.0 html//") ||
        has_prefix(p, "-//microsoft//dtd internet explorer 2.0 tables//") ||
        has_prefix(p, "-//microsoft//dtd internet explorer 3.0 html strict//") ||
        has_prefix(p, "-//microsoft//dtd internet explorer 3.0 html//") ||
        has_prefix(p, "-//microsoft//dtd internet explorer 3.0 tables//") ||
        has_prefix(p, "-//netscape comm. corp.//dtd html//") ||
        has_prefix(p, "-//netscape comm. corp.//dtd strict html//") ||
        has_prefix(p, "-//o'reilly and associates//dtd html 2.0//") ||
        has_prefix(p, "-//o'reilly and associates//dtd html extended 1.0//") ||
        has_prefix(p, "-//o'reilly and associates//dtd html extended relaxed 1.0//") ||
        has_prefix(p, "-//softquad software//dtd hotmetal pro 6.0::19990601::extensions to html 4.0//") ||
        has_prefix(p, "-//softquad//dtd hotmetal pro 4.0::19971010::extensions to html 4.0//") ||
        has_prefix(p, "-//spyglass//dtd html 2.0 extended//") ||
        has_prefix(p, "-//sq//dtd html 2.0 hotmetal + extensions//") ||
        has_prefix(p, "-//sun microsystems corp.//dtd hotjava html//") ||
        has_prefix(p, "-//sun microsystems corp.//dtd hotjava strict html//") ||
        has_prefix(p, "-//w3c//dtd html 3 1995-03-24//") ||
        has_prefix(p, "-//w3c//dtd html 3.2 draft//") ||
        has_prefix(p, "-//w3c//dtd html 3.2 final//") ||
        has_prefix(p, "-//w3c//dtd html 3.2//") ||
        has_prefix(p, "-//w3c//dtd html 3.2s draft//") ||
        has_prefix(p, "-//w3c//dtd html 4.0 frameset//") ||
        has_prefix(p, "-//w3c//dtd html 4.0 transitional//") ||
        has_prefix(p, "-//w3c//dtd html experimental 19960712//") ||
        has_prefix(p, "-//w3c//dtd html experimental 970421//") ||
        has_prefix(p, "-//w3c//dtd w3 html//") ||
        has_prefix(p, "-//w3o//dtd w3 html 3.0//") ||
        has_prefix(p, "-//webtechs//dtd mozilla html 2.0//") ||
        has_prefix(p, "-//webtechs//dtd mozilla html//")
}

/// Is the doctype no error?
fn is_fine(d: &Doctype) -> (r: bool)
    ensures
        r == doctype_is_fine(d@),
{
    let public = &d.public_id;
    let system = &d.system_id;
    opt_is(&d.name, "html") && (
        (public.is_none() && system.is_none()) ||
        (public.is_none() && opt_is(system, "about:legacy-compat")) ||
        (opt_is(public, "-//W3C//DTD HTML 4.0//EN") && system.is_none()) ||
        (opt_is(public, "-//W3C//DTD HTML 4.0//EN") && opt_is(system, "http://www.w3.org/TR/REC-html40/strict.dtd")) ||
        (opt_is(public, "-//W3C//DTD HTML 4.01//EN") && system.is_none()) ||
        (opt_is(public, "-//W3C//DTD HTML 4.01//EN") && opt_is(system, "http://www.w3.org/TR/html4/strict.dtd")) ||
        (opt_is(public, "-//W3C//DTD XHTML 1.0 Strict//EN") && opt_is(system, "http://www.w3.org/TR/xhtml1/DTD/xhtml1-strict.dtd")) ||
        (opt_is(public, "-//W3C//DTD XHTML 1.1//EN") && opt_is(system, "http://www.w3.org/TR/xhtml11/DTD/xhtml11.dtd"))
    )
}

/// Is a doctype an error, and which mode does it call for?
pub fn doctype_error_and_quirks(doctype: &Doctype, iframe_srcdoc: bool) -> (r: (bool, QuirksMode))
    ensures
        r.0 == !doctype_is_fine(doctype@),
        r.1 == doctype_quirks(doctype@, iframe_srcdoc),
{
    let err = !is_fine(doctype);
    if doctype.force_quirks || !opt_is(&doctype.name, "html") {
        return (err, QuirksMode::Quirks);
    }
    if iframe_srcdoc {
        return (err, QuirksMode::NoQuirks);
    }
    let public = opt_to_lower(&doctype.public_id);
    let system = opt_to_lower(&doctype.system_id);
    if let Some(p) = &public {
        if text_is(p, "-//w3o//dtd w3 html strict 3.0//en//") || text_is(
            p,
            "-/w3c/dtd html 4.0 transitional/en",
        ) || text_is(p, "html") {
            return (err, QuirksMode::Quirks);
        }
    }
    if let Some(s) = &system {
        if text_is(s, "http://www.ibm.com/data/dtd/v11/ibmxhtml1-transitional.dtd") {
            return (err, QuirksMode::Quirks);
        }
    }
    if let Some(p) = &public {
        if has_quirky_public_prefix(p) {
            return (err, QuirksMode::Quirks);
        }
        if has_prefix(p, "-//w3c//dtd xhtml 1.0 frameset//") || has_prefix(
            p,
            "-//w3c//dtd xhtml 1.0 transitional//",
        ) {
            return (err, QuirksMode::LimitedQuirks);
        }
        if has_prefix(p, "-//w3c//dtd html 4.01 frameset//") || has_prefix(
            p,
            "-//w3c//dtd html 4.01 transitional//",
        ) {
            return match system {
                None => (err, QuirksMode::Quirks),
                Some(_) => (err, QuirksMode::LimitedQuirks),
            };
        }
    }
    (err, QuirksMode::NoQuirks)
}

/// Which mode a doctype calls for does not depend on the case of its identifiers.
pub proof fn law_case_of_identifiers_does_not_matter(
    c: DoctypeView,
    d: DoctypeView,
    iframe_srcdoc: bool,
)
    requires
        c.name == d.name,
        c.force_quirks == d.force_quirks,
        opt_lower(c.public_id) == opt_lower(d.public_id),
        opt_lower(c.system_id) == opt_lower(d.system_id),
    ensures
        doctype_quirks(c, iframe_srcdoc) == doctype_quirks(d, iframe_srcdoc),
{
}

/// A doctype of another name, or one that was not complete, calls for quirks mode, whatever
/// else it says. Any other one does not in an `iframe srcdoc` document. And `html` alone
/// never does, nor with a system identifier alone, but for a single one.
pub proof fn law_when_there_are_quirks(d: DoctypeView, iframe_srcdoc: bool)
    ensures
        d.force_quirks ==> doctype_quirks(d, iframe_srcdoc) == QuirksMode::Quirks,
        d.name is None ==> doctype_quirks(d, iframe_srcdoc) == QuirksMode::Quirks,
        (d.name matches Some(n) && n != "html"@) ==> doctype_quirks(d, iframe_srcdoc)
            == QuirksMode::Quirks,
        d.name == Some("html"@) && !d.force_quirks && iframe_srcdoc ==> doctype_quirks(d, true)
            == QuirksMode::NoQuirks,
        d.name == Some("html"@) && !d.force_quirks && d.public_id is None && (d.system_id
            matches Some(s) ==> lower_text(s)
            != "http://www.ibm.com/data/dtd/v11/ibmxhtml1-transitional.dtd"@) ==> doctype_quirks(
            d,
            iframe_srcdoc,
        ) == QuirksMode::NoQuirks,
        doctype_quirks(d, iframe_srcdoc) == QuirksMode::LimitedQuirks ==> d.public_id is Some,
{
}

/// Text that begins with `start` does not begin with what differs from it at the place `k`.
proof fn lemma_differs(other: Seq<char>, p: Seq<char>, start: Seq<char>, k: int)
    requires
        0 <= k < start.len(),
        k < other.len(),
        start.len() <= p.len(),
        p[k] == start[k],
        other[k] != start[k],
    ensures
        !other.is_prefix_of(p),
{
    if other.is_prefix_of(p) {
        assert(other =~= p.take(other.len() as int));
        assert(p.take(other.len() as int)[k] == p[k]);
    }
}

/// What begins with `long` begins with the beginning of `long`.
proof fn lemma_begins(start: Seq<char>, long: Seq<char>, p: Seq<char>)
    requires
        start.is_prefix_of(long),
        long.is_prefix_of(p),
    ensures
        start.is_prefix_of(p),
{
    assert(long =~= p.take(long.len() as int));
    assert(start =~= long.take(start.len() as int));
    assert(start =~= p.take(start.len() as int));
}

/// Identifiers of this version of HTML are not among those that always call for quirks.
#[verifier::spinoff_prover]
#[verifier::rlimit(30)]
proof fn lemma_html_not_quirky(p: Seq<char>)
    requires
        "-//w3c//dtd html 4.01"@.is_prefix_of(p),
    ensures
        !quirky_public_prefix(p),
        !quirky_public(p),
{
    let start = "-//w3c//dtd html 4.01"@;
    reveal_strlit("-//w3c//dtd html 4.01");
    assert forall|k: int| 0 <= k < start.len() implies p[k] == #[trigger] start[k] by {
        assert(start =~= p.take(start.len() as int));
    }
    assert(!"-//advasoft ltd//dtd html 3.0 aswedit + extensions//"@.is_prefix_of(p)) by {
        reveal_strlit("-//advasoft ltd//dtd html 3.0 aswedit + extensions//");
        lemma_differs("-//advasoft ltd//dtd html 3.0 aswedit + extensions//"@, p, start, 3);
    }
    assert(!"-//as//dtd html 3.0 aswedit + extensions//"@.is_prefix_of(p)) by {
        reveal_strlit("-//as//dtd html 3.0 aswedit + extensions//");
        lemma_differs("-//as//dtd html 3.0 aswedit + extensions//"@, p, start, 3);
    }
    assert(!"-//ietf//dtd html 2.0 level 1//"@.is_prefix_of(p)) by {
        reveal_strlit("-//ietf//dtd html 2.0 level 1//");
        lemma_differs("-//ietf//dtd html 2.0 level 1//"@, p, start, 3);
    }
    assert(!"-//ietf//dtd html 2.0 level 2//"@.is_prefix_of(p)) by {
        reveal_strlit("-//ietf//dtd html 2.0 level 2//");
        lemma_differs("-//ietf//dtd html 2.0 level 2//"@, p, start, 3);
    }
    assert(!"-//ietf//dtd html 2.0 strict level 1//"@.is_prefix_of(p)) by {
        reveal_strlit("-//ietf//dtd html 2.0 strict level 1//");
        lemma_differs("-//ietf//dtd html 2.0 strict level 1//"@, p, start, 3);
    }
    assert(!"-//ietf//dtd html 2.0 strict level 2//"@.is_prefix_of(p)) by {
        reveal_strlit("-//ietf//dtd html 2.0 strict level 2//");
        lemma_differs("-//ietf//dtd html 2.0 strict level 2//"@, p, start, 3);
    }
    assert(!"-//ietf//dtd html 2.0 strict//"@.is_prefix_of(p)) by {
        reveal_strlit("-//ietf//dtd html 2.0 strict//");
        lemma_differs("-//ietf//dtd html 2.0 strict//"@, p, start, 3);
    }
    assert(!"-//ietf//dtd html 2.0//"@.is_prefix_of(p)) by {
        reveal_strlit("-//ietf//dtd html 2.0//");
        lemma_differs("-//ietf//dtd html 2.0//"@, p, start, 3);
    }
    assert(!"-//ietf//dtd html 2.1e//"@.is_prefix_of(p)) by {
        reveal_strlit("-//ietf//dtd html 2.1e//");
        lemma_differs("-//ietf//dtd html 2.1e//"@, p, start, 3);
    }
    assert(!"-//ietf//dtd html 3.0//"@.is_prefix_of(p)) by {
        reveal_strlit("-//ietf//dtd html 3.0//");
        lemma_differs("-//ietf//dtd html 3.0//"@, p, start, 3);
    }
    assert(!"-//ietf//dtd html 3.2 final//"@.is_prefix_of(p)) by {
        reveal_strlit("-//ietf//dtd html 3.2 final//");
        lemma_differs("-//ietf//dtd html 3.2 final//"@, p, start, 3);
    }
    assert(!"-//ietf//dtd html 3.2//"@.is_prefix_of(p)) by {
        reveal_strlit("-//ietf//dtd html 3.2//");
        lemma_differs("-//ietf//dtd html 3.2//"@, p, start, 3);
    }
    assert(!"-//ietf//dtd html 3//"@.is_prefix_of(p)) by {
        reveal_strlit("-//ietf//dtd html 3//");
        lemma_differs("-//ietf//dtd html 3//"@, p, start, 3);
    }
    assert(!"-//ietf//dtd html level 0//"@.is_prefix_of(p)) by {
        reveal_strlit("-//ietf//dtd html level 0//");
        lemma_differs("-//ietf//dtd html level 0//"@, p, start, 3);
    }
    assert(!"-//ietf//dtd html level 1//"@.is_prefix_of(p)) by {
        reveal_strlit("-//ietf//dtd html level 1//");
        lemma_differs("-//ietf//dtd html level 1//"@, p, start, 3);
    }
    assert(!"-//ietf//dtd html level 2//"@.is_prefix_of(p)) by {
        reveal_strlit("-//ietf//dtd html level 2//");
        lemma_differs("-//ietf//dtd html level 2//"@, p, start, 3);
    }
    assert(!"-//ietf//dtd html level 3//"@.is_prefix_of(p)) by {
        reveal_strlit("-//ietf//dtd html level 3//");
        lemma_differs("-//ietf//dtd html level 3//"@, p, start, 3);
    }
    assert(!"-//ietf//dtd html strict level 0//"@.is_prefix_of(p)) by {
        reveal_strlit("-//ietf//dtd html strict level 0//");
        lemma_differs("-//ietf//dtd html strict level 0//"@, p, start, 3);
    }
    assert(!"-//ietf//dtd html strict level 1//"@.is_prefix_of(p)) by {
        reveal_strlit("-//ietf//dtd html strict level 1//");
        lemma_differs("-//ietf//dtd html strict level 1//"@, p, start, 3);
    }
    assert(!"-//ietf//dtd html strict level 2//"@.is_prefix_of(p)) by {
        reveal_strlit("-//ietf//dtd html strict level 2//");
        lemma_differs("-//ietf//dtd html strict level 2//"@, p, start, 3);
    }
    assert(!"-//ietf//dtd html strict level 3//"@.is_prefix_of(p)) by {
        reveal_strlit("-//ietf//dtd html strict level 3//");
        lemma_differs("-//ietf//dtd html strict level 3//"@, p, start, 3);
    }
    assert(!"-//ietf//dtd html strict//"@.is_prefix_of(p)) by {
        reveal_strlit("-//ietf//dtd html strict//");
        lemma_differs("-//ietf//dtd html strict//"@, p, start, 3);
    }
    assert(!"-//ietf//dtd html//"@.is_prefix_of(p)) by {
        reveal_strlit("-//ietf//dtd html//");
        lemma_differs("-//ietf//dtd html//"@, p, start, 3);
    }
    assert(!"-//metrius//dtd metrius presentational//"@.is_prefix_of(p)) by {
        reveal_strlit("-//metrius//dtd metrius presentational//");
        lemma_differs("-//metrius//dtd metrius presentational//"@, p, start, 3);
    }
    assert(!"-//microsoft//dtd internet explorer 2.0 html strict//"@.is_prefix_of(p)) by {
        reveal_strlit("-//microsoft//dtd internet explorer 2.0 html strict//");
        lemma_differs("-//microsoft//dtd internet explorer 2.0 html strict//"@, p, start, 3);
    }
    assert(!"-//microsoft//dtd internet explorer 2.0 html//"@.is_prefix_of(p)) by {
        reveal_strlit("-//microsoft//dtd internet explorer 2.0 html//");
        lemma_differs("-//microsoft//dtd internet explorer 2.0 html//"@, p, start, 3);
    }
    assert(!"-//microsoft//dtd internet explorer 2.0 tables//"@.is_prefix_of(p)) by {
        reveal_strlit("-//microsoft//dtd internet explorer 2.0 tables//");
        lemma_differs("-//microsoft//dtd internet explorer 2.0 tables//"@, p, start, 3);
    }
    assert(!"-//microsoft//dtd internet explorer 3.0 html strict//"@.is_prefix_of(p)) by {
        reveal_strlit("-//microsoft//dtd internet explorer 3.0 html strict//");
        lemma_differs("-//microsoft//dtd internet explorer 3.0 html strict//"@, p, start, 3);
    }
    assert(!"-//microsoft//dtd internet explorer 3.0 html//"@.is_prefix_of(p)) by {
        reveal_strlit("-//microsoft//dtd internet explorer 3.0 html//");
        lemma_differs("-//microsoft//dtd internet explorer 3.0 html//"@, p, start, 3);
    }
    assert(!"-//microsoft//dtd internet explorer 3.0 tables//"@.is_prefix_of(p)) by {
        reveal_strlit("-//microsoft//dtd internet explorer 3.0 tables//");
        lemma_differs("-//microsoft//dtd internet explorer 3.0 tables//"@, p, start, 3);
    }
    assert(!"-//netscape comm. corp.//dtd html//"@.is_prefix_of(p)) by {
        reveal_strlit("-//netscape comm. corp.//dtd html//");
        lemma_differs("-//netscape comm. corp.//dtd html//"@, p, start, 3);
    }
    assert(!"-//netscape comm. corp.//dtd strict html//"@.is_prefix_of(p)) by {
        reveal_strlit("-//netscape comm. corp.//dtd strict html//");
        lemma_differs("-//netscape comm. corp.//dtd strict html//"@, p, start, 3);
    }
    assert(!"-//o'reilly and associates//dtd html 2.0//"@.is_prefix_of(p)) by {
        reveal_strlit("-//o'reilly and associates//dtd html 2.0//");
        lemma_differs("-//o'reilly and associates//dtd html 2.0//"@, p, start, 3);
    }
    assert(!"-//o'reilly and associates//dtd html extended 1.0//"@.is_prefix_of(p)) by {
        reveal_strlit("-//o'reilly and associates//dtd html extended 1.0//");
        lemma_differs("-//o'reilly and associates//dtd html extended 1.0//"@, p, start, 3);
    }
    assert(!"-//o'reilly and associates//dtd html extended relaxed 1.0//"@.is_prefix_of(p)) by {
        reveal_strlit("-//o'reilly and associates//dtd html extended relaxed 1.0//");
        lemma_differs("-//o'reilly and associates//dtd html extended relaxed 1.0//"@, p, start, 3);
    }
    assert(!"-//softquad software//dtd hotmetal pro 6.0::19990601::extensions to html 4.0//"@.is_prefix_of(p)) by {
        reveal_strlit("-//softquad software//dtd hotmetal pro 6.0::19990601::extensions to html 4.0//");
        lemma_differs("-//softquad software//dtd hotmetal pro 6.0::19990601::extensions to html 4.0//"@, p, start, 3);
    }
    assert(!"-//softquad//dtd hotmetal pro 4.0::19971010::extensions to html 4.0//"@.is_prefix_of(p)) by {
        reveal_strlit("-//softquad//dtd hotmetal pro 4.0::19971010::extensions to html 4.0//");
        lemma_differs("-//softquad//dtd hotmetal pro 4.0::19971010::extensions to html 4.0//"@, p, start, 3);
    }
    assert(!"-//spyglass//dtd html 2.0 extended//"@.is_prefix_of(p)) by {
        reveal_strlit("-//spyglass//dtd html 2.0 extended//");
        lemma_differs("-//spyglass//dtd html 2.0 extended//"@, p, start, 3);
    }
    assert(!"-//sq//dtd html 2.0 hotmetal + extensions//"@.is_prefix_of(p)) by {
        reveal_strlit("-//sq//dtd html 2.0 hotmetal + extensions//");
        lemma_differs("-//sq//dtd html 2.0 hotmetal + extensions//"@, p, start, 3);
    }
    assert(!"-//sun microsystems corp.//dtd hotjava html//"@.is_prefix_of(p)) by {
        reveal_strlit("-//sun microsystems corp.//dtd hotjava html//");
        lemma_differs("-//sun microsystems corp.//dtd hotjava html//"@, p, start, 3);
    }
    assert(!"-//sun microsystems corp.//dtd hotjava strict html//"@.is_prefix_of(p)) by {
        reveal_strlit("-//sun microsystems corp.//dtd hotjava strict html//");
        lemma_differs("-//sun microsystems corp.//dtd hotjava strict html//"@, p, start, 3);
    }
    assert(!"-//w3c//dtd html 3 1995-03-24//"@.is_prefix_of(p)) by {
        reveal_strlit("-//w3c//dtd html 3 1995-03-24//");
        lemma_differs("-//w3c//dtd html 3 1995-03-24//"@, p, start, 17);
    }
    assert(!"-//w3c//dtd html 3.2 draft//"@.is_prefix_of(p)) by {
        reveal_strlit("-//w3c//dtd html 3.2 draft//");
        lemma_differs("-//w3c//dtd html 3.2 draft//"@, p, start, 17);
    }
    assert(!"-//w3c//dtd html 3.2 final//"@.is_prefix_of(p)) by {
        reveal_strlit("-//w3c//dtd html 3.2 final//");
        lemma_differs("-//w3c//dtd html 3.2 final//"@, p, start, 17);
    }
    assert(!"-//w3c//dtd html 3.2//"@.is_prefix_of(p)) by {
        reveal_strlit("-//w3c//dtd html 3.2//");
        lemma_differs("-//w3c//dtd html 3.2//"@, p, start, 17);
    }
    assert(!"-//w3c//dtd html 3.2s draft//"@.is_prefix_of(p)) by {
        reveal_strlit("-//w3c//dtd html 3.2s draft//");
        lemma_differs("-//w3c//dtd html 3.2s draft//"@, p, start, 17);
    }
    assert(!"-//w3c//dtd html 4.0 frameset//"@.is_prefix_of(p)) by {
        reveal_strlit("-//w3c//dtd html 4.0 frameset//");
        lemma_differs("-//w3c//dtd html 4.0 frameset//"@, p, start, 20);
    }
    assert(!"-//w3c//dtd html 4.0 transitional//"@.is_prefix_of(p)) by {
        reveal_strlit("-//w3c//dtd html 4.0 transitional//");
        lemma_differs("-//w3c//dtd html 4.0 transitional//"@, p, start, 20);
    }
    assert(!"-//w3c//dtd html experimental 19960712//"@.is_prefix_of(p)) by {
        reveal_strlit("-//w3c//dtd html experimental 19960712//");
        lemma_differs("-//w3c//dtd html experimental 19960712//"@, p, start, 17);
    }
    assert(!"-//w3c//dtd html experimental 970421//"@.is_prefix_of(p)) by {
        reveal_strlit("-//w3c//dtd html experimental 970421//");
        lemma_differs("-//w3c//dtd html experimental 970421//"@, p, start, 17);
    }
    assert(!"-//w3c//dtd w3 html//"@.is_prefix_of(p)) by {
        reveal_strlit("-//w3c//dtd w3 html//");
        lemma_differs("-//w3c//dtd w3 html//"@, p, start, 12);
    }
    assert(!"-//w3o//dtd w3 html 3.0//"@.is_prefix_of(p)) by {
        reveal_strlit("-//w3o//dtd w3 html 3.0//");
        lemma_differs("-//w3o//dtd w3 html 3.0//"@, p, start, 5);
    }
    assert(!"-//webtechs//dtd mozilla html 2.0//"@.is_prefix_of(p)) by {
        reveal_strlit("-//webtechs//dtd mozilla html 2.0//");
        lemma_differs("-//webtechs//dtd mozilla html 2.0//"@, p, start, 4);
    }
    assert(!"-//webtechs//dtd mozilla html//"@.is_prefix_of(p)) by {
        reveal_strlit("-//webtechs//dtd mozilla html//");
        lemma_differs("-//webtechs//dtd mozilla html//"@, p, start, 4);
    }
    assert(p != "-//w3o//dtd w3 html strict 3.0//en//"@) by {
        reveal_strlit("-//w3o//dtd w3 html strict 3.0//en//");
        assert(start[5] != "-//w3o//dtd w3 html strict 3.0//en//"@[5]);
    }
    assert(p != "-/w3c/dtd html 4.0 transitional/en"@) by {
        reveal_strlit("-/w3c/dtd html 4.0 transitional/en");
        assert(start[2] != "-/w3c/dtd html 4.0 transitional/en"@[2]);
    }
    assert(p != "html"@) by {
        reveal_strlit("html");
        assert(start[0] != "html"@[0]);
    }
}

/// Nor are strict ones of the version before it.
#[verifier::spinoff_prover]
#[verifier::rlimit(30)]
proof fn lemma_strict_html_not_quirky(p: Seq<char>)
    requires
        "-//w3c//dtd html 4.0//"@.is_prefix_of(p),
    ensures
        !quirky_public_prefix(p),
        !quirky_public(p),
{
    let start = "-//w3c//dtd html 4.0//"@;
    reveal_strlit("-//w3c//dtd html 4.0//");
    assert forall|k: int| 0 <= k < start.len() implies p[k] == #[trigger] start[k] by {
        assert(start =~= p.take(start.len() as int));
    }
    assert(!"-//advasoft ltd//dtd html 3.0 aswedit + extensions//"@.is_prefix_of(p)) by {
        reveal_strlit("-//advasoft ltd//dtd html 3.0 aswedit + extensions//");
        lemma_differs("-//advasoft ltd//dtd html 3.0 aswedit + extensions//"@, p, start, 3);
    }
    assert(!"-//as//dtd html 3.0 aswedit + extensions//"@.is_prefix_of(p)) by {
        reveal_strlit("-//as//dtd html 3.0 aswedit + extensions//");
        lemma_differs("-//as//dtd html 3.0 aswedit + extensions//"@, p, start, 3);
    }
    assert(!"-//ietf//dtd html 2.0 level 1//"@.is_prefix_of(p)) by {
        reveal_strlit("-//ietf//dtd html 2.0 level 1//");
        lemma_differs("-//ietf//dtd html 2.0 level 1//"@, p, start, 3);
    }
    assert(!"-//ietf//dtd html 2.0 level 2//"@.is_prefix_of(p)) by {
        reveal_strlit("-//ietf//dtd html 2.0 level 2//");
        lemma_differs("-//ietf//dtd html 2.0 level 2//"@, p, start, 3);
    }
    assert(!"-//ietf//dtd html 2.0 strict level 1//"@.is_prefix_of(p)) by {
        reveal_strlit("-//ietf//dtd html 2.0 strict level 1//");
        lemma_differs("-//ietf//dtd html 2.0 strict level 1//"@, p, start, 3);
    }
    assert(!"-//ietf//dtd html 2.0 strict level 2//"@.is_prefix_of(p)) by {
        reveal_strlit("-//ietf//dtd html 2.0 strict level 2//");
        lemma_differs("-//ietf//dtd html 2.0 strict level 2//"@, p, start, 3);
    }
    assert(!"-//ietf//dtd html 2.0 strict//"@.is_prefix_of(p)) by {
        reveal_strlit("-//ietf//dtd html 2.0 strict//");
        lemma_differs("-//ietf//dtd html 2.0 strict//"@, p, start, 3);
    }
    assert(!"-//ietf//dtd html 2.0//"@.is_prefix_of(p)) by {
        reveal_strlit("-//ietf//dtd html 2.0//");
        lemma_differs("-//ietf//dtd html 2.0//"@, p, start, 3);
    }
    assert(!"-//ietf//dtd html 2.1e//"@.is_prefix_of(p)) by {
        reveal_strlit("-//ietf//dtd html 2.1e//");
        lemma_differs("-//ietf//dtd html 2.1e//"@, p, start, 3);
    }
    assert(!"-//ietf//dtd html 3.0//"@.is_prefix_of(p)) by {
        reveal_strlit("-//ietf//dtd html 3.0//");
        lemma_differs("-//ietf//dtd html 3.0//"@, p, start, 3);
    }
    assert(!"-//ietf//dtd html 3.2 final//"@.is_prefix_of(p)) by {
        reveal_strlit("-//ietf//dtd html 3.2 final//");
        lemma_differs("-//ietf//dtd html 3.2 final//"@, p, start, 3);
    }
    assert(!"-//ietf//dtd html 3.2//"@.is_prefix_of(p)) by {
        reveal_strlit("-//ietf//dtd html 3.2//");
        lemma_differs("-//ietf//dtd html 3.2//"@, p, start, 3);
    }
    assert(!"-//ietf//dtd html 3//"@.is_prefix_of(p)) by {
        reveal_strlit("-//ietf//dtd html 3//");
        lemma_differs("-//ietf//dtd html 3//"@, p, start, 3);
    }
    assert(!"-//ietf//dtd html level 0//"@.is_prefix_of(p)) by {
        reveal_strlit("-//ietf//dtd html level 0//");
        lemma_differs("-//ietf//dtd html level 0//"@, p, start, 3);
    }
    assert(!"-//ietf//dtd html level 1//"@.is_prefix_of(p)) by {
        reveal_strlit("-//ietf//dtd html level 1//");
        lemma_differs("-//ietf//dtd html level 1//"@, p, start, 3);
    }
    assert(!"-//ietf//dtd html level 2//"@.is_prefix_of(p)) by {
        reveal_strlit("-//ietf//dtd html level 2//");
        lemma_differs("-//ietf//dtd html level 2//"@, p, start, 3);
    }
    assert(!"-//ietf//dtd html level 3//"@.is_prefix_of(p)) by {
        reveal_strlit("-//ietf//dtd html level 3//");
        lemma_differs("-//ietf//dtd html level 3//"@, p, start, 3);
    }
    assert(!"-//ietf//dtd html strict level 0//"@.is_prefix_of(p)) by {
        reveal_strlit("-//ietf//dtd html strict level 0//");
        lemma_differs("-//ietf//dtd html strict level 0//"@, p, start, 3);
    }
    assert(!"-//ietf//dtd html strict level 1//"@.is_prefix_of(p)) by {
        reveal_strlit("-//ietf//dtd html strict level 1//");
        lemma_differs("-//ietf//dtd html strict level 1//"@, p, start, 3);
    }
    assert(!"-//ietf//dtd html strict level 2//"@.is_prefix_of(p)) by {
        reveal_strlit("-//ietf//dtd html strict level 2//");
        lemma_differs("-//ietf//dtd html strict level 2//"@, p, start, 3);
    }
    assert(!"-//ietf//dtd html strict level 3//"@.is_prefix_of(p)) by {
        reveal_strlit("-//ietf//dtd html strict level 3//");
        lemma_differs("-//ietf//dtd html strict level 3//"@, p, start, 3);
    }
    assert(!"-//ietf//dtd html strict//"@.is_prefix_of(p)) by {
        reveal_strlit("-//ietf//dtd html strict//");
        lemma_differs("-//ietf//dtd html strict//"@, p, start, 3);
    }
    assert(!"-//ietf//dtd html//"@.is_prefix_of(p)) by {
        reveal_strlit("-//ietf//dtd html//");
        lemma_differs("-//ietf//dtd html//"@, p, start, 3);
    }
    assert(!"-//metrius//dtd metrius presentational//"@.is_prefix_of(p)) by {
        reveal_strlit("-//metrius//dtd metrius presentational//");
        lemma_differs("-//metrius//dtd metrius presentational//"@, p, start, 3);
    }
    assert(!"-//microsoft//dtd internet explorer 2.0 html strict//"@.is_prefix_of(p)) by {
        reveal_strlit("-//microsoft//dtd internet explorer 2.0 html strict//");
        lemma_differs("-//microsoft//dtd internet explorer 2.0 html strict//"@, p, start, 3);
    }
    assert(!"-//microsoft//dtd internet explorer 2.0 html//"@.is_prefix_of(p)) by {
        reveal_strlit("-//microsoft//dtd internet explorer 2.0 html//");
        lemma_differs("-//microsoft//dtd internet explorer 2.0 html//"@, p, start, 3);
    }
    assert(!"-//microsoft//dtd internet explorer 2.0 tables//"@.is_prefix_of(p)) by {
        reveal_strlit("-//microsoft//dtd internet explorer 2.0 tables//");
        lemma_differs("-//microsoft//dtd internet explorer 2.0 tables//"@, p, start, 3);
    }
    assert(!"-//microsoft//dtd internet explorer 3.0 html strict//"@.is_prefix_of(p)) by {
        reveal_strlit("-//microsoft//dtd internet explorer 3.0 html strict//");
        lemma_differs("-//microsoft//dtd internet explorer 3.0 html strict//"@, p, start, 3);
    }
    assert(!"-//microsoft//dtd internet explorer 3.0 html//"@.is_prefix_of(p)) by {
        reveal_strlit("-//microsoft//dtd internet explorer 3.0 html//");
        lemma_differs("-//microsoft//dtd internet explorer 3.0 html//"@, p, start, 3);
    }
    assert(!"-//microsoft//dtd internet explorer 3.0 tables//"@.is_prefix_of(p)) by {
        reveal_strlit("-//microsoft//dtd internet explorer 3.0 tables//");
        lemma_differs("-//microsoft//dtd internet explorer 3.0 tables//"@, p, start, 3);
    }
    assert(!"-//netscape comm. corp.//dtd html//"@.is_prefix_of(p)) by {
        reveal_strlit("-//netscape comm. corp.//dtd html//");
        lemma_differs("-//netscape comm. corp.//dtd html//"@, p, start, 3);
    }
    assert(!"-//netscape comm. corp.//dtd strict html//"@.is_prefix_of(p)) by {
        reveal_strlit("-//netscape comm. corp.//dtd strict html//");
        lemma_differs("-//netscape comm. corp.//dtd strict html//"@, p, start, 3);
    }
    assert(!"-//o'reilly and associates//dtd html 2.0//"@.is_prefix_of(p)) by {
        reveal_strlit("-//o'reilly and associates//dtd html 2.0//");
        lemma_differs("-//o'reilly and associates//dtd html 2.0//"@, p, start, 3);
    }
    assert(!"-//o'reilly and associates//dtd html extended 1.0//"@.is_prefix_of(p)) by {
        reveal_strlit("-//o'reilly and associates//dtd html extended 1.0//");
        lemma_differs("-//o'reilly and associates//dtd html extended 1.0//"@, p, start, 3);
    }
    assert(!"-//o'reilly and associates//dtd html extended relaxed 1.0//"@.is_prefix_of(p)) by {
        reveal_strlit("-//o'reilly and associates//dtd html extended relaxed 1.0//");
        lemma_differs("-//o'reilly and associates//dtd html extended relaxed 1.0//"@, p, start, 3);
    }
    assert(!"-//softquad software//dtd hotmetal pro 6.0::19990601::extensions to html 4.0//"@.is_prefix_of(p)) by {
        reveal_strlit("-//softquad software//dtd hotmetal pro 6.0::19990601::extensions to html 4.0//");
        lemma_differs("-//softquad software//dtd hotmetal pro 6.0::19990601::extensions to html 4.0//"@, p, start, 3);
    }
    assert(!"-//softquad//dtd hotmetal pro 4.0::19971010::extensions to html 4.0//"@.is_prefix_of(p)) by {
        reveal_strlit("-//softquad//dtd hotmetal pro 4.0::19971010::extensions to html 4.0//");
        lemma_differs("-//softquad//dtd hotmetal pro 4.0::19971010::extensions to html 4.0//"@, p, start, 3);
    }
    assert(!"-//spyglass//dtd html 2.0 extended//"@.is_prefix_of(p)) by {
        reveal_strlit("-//spyglass//dtd html 2.0 extended//");
        lemma_differs("-//spyglass//dtd html 2.0 extended//"@, p, start, 3);
    }
    assert(!"-//sq//dtd html 2.0 hotmetal + extensions//"@.is_prefix_of(p)) by {
        reveal_strlit("-//sq//dtd html 2.0 hotmetal + extensions//");
        lemma_differs("-//sq//dtd html 2.0 hotmetal + extensions//"@, p, start, 3);
    }
    assert(!"-//sun microsystems corp.//dtd hotjava html//"@.is_prefix_of(p)) by {
        reveal_strlit("-//sun microsystems corp.//dtd hotjava html//");
        lemma_differs("-//sun microsystems corp.//dtd hotjava html//"@, p, start, 3);
    }
    assert(!"-//sun microsystems corp.//dtd hotjava strict html//"@.is_prefix_of(p)) by {
        reveal_strlit("-//sun microsystems corp.//dtd hotjava strict html//");
        lemma_differs("-//sun microsystems corp.//dtd hotjava strict html//"@, p, start, 3);
    }
    assert(!"-//w3c//dtd html 3 1995-03-24//"@.is_prefix_of(p)) by {
        reveal_strlit("-//w3c//dtd html 3 1995-03-24//");
        lemma_differs("-//w3c//dtd html 3 1995-03-24//"@, p, start, 17);
    }
    assert(!"-//w3c//dtd html 3.2 draft//"@.is_prefix_of(p)) by {
        reveal_strlit("-//w3c//dtd html 3.2 draft//");
        lemma_differs("-//w3c//dtd html 3.2 draft//"@, p, start, 17);
    }
    assert(!"-//w3c//dtd html 3.2 final//"@.is_prefix_of(p)) by {
        reveal_strlit("-//w3c//dtd html 3.2 final//");
        lemma_differs("-//w3c//dtd html 3.2 final//"@, p, start, 17);
    }
    assert(!"-//w3c//dtd html 3.2//"@.is_prefix_of(p)) by {
        reveal_strlit("-//w3c//dtd html 3.2//");
        lemma_differs("-//w3c//dtd html 3.2//"@, p, start, 17);
    }
    assert(!"-//w3c//dtd html 3.2s draft//"@.is_prefix_of(p)) by {
        reveal_strlit("-//w3c//dtd html 3.2s draft//");
        lemma_differs("-//w3c//dtd html 3.2s draft//"@, p, start, 17);
    }
    assert(!"-//w3c//dtd html 4.0 frameset//"@.is_prefix_of(p)) by {
        reveal_strlit("-//w3c//dtd html 4.0 frameset//");
        lemma_differs("-//w3c//dtd html 4.0 frameset//"@, p, start, 20);
    }
    assert(!"-//w3c//dtd html 4.0 transitional//"@.is_prefix_of(p)) by {
        reveal_strlit("-//w3c//dtd html 4.0 transitional//");
        lemma_differs("-//w3c//dtd html 4.0 transitional//"@, p, start, 20);
    }
    assert(!"-//w3c//dtd html experimental 19960712//"@.is_prefix_of(p)) by {
        reveal_strlit("-//w3c//dtd html experimental 19960712//");
        lemma_differs("-//w3c//dtd html experimental 19960712//"@, p, start, 17);
    }
    assert(!"-//w3c//dtd html experimental 970421//"@.is_prefix_of(p)) by {
        reveal_strlit("-//w3c//dtd html experimental 970421//");
        lemma_differs("-//w3c//dtd html experimental 970421//"@, p, start, 17);
    }
    assert(!"-//w3c//dtd w3 html//"@.is_prefix_of(p)) by {
        reveal_strlit("-//w3c//dtd w3 html//");
        lemma_differs("-//w3c//dtd w3 html//"@, p, start, 12);
    }
    assert(!"-//w3o//dtd w3 html 3.0//"@.is_prefix_of(p)) by {
        reveal_strlit("-//w3o//dtd w3 html 3.0//");
        lemma_differs("-//w3o//dtd w3 html 3.0//"@, p, start, 5);
    }
    assert(!"-//webtechs//dtd mozilla html 2.0//"@.is_prefix_of(p)) by {
        reveal_strlit("-//webtechs//dtd mozilla html 2.0//");
        lemma_differs("-//webtechs//dtd mozilla html 2.0//"@, p, start, 4);
    }
    assert(!"-//webtechs//dtd mozilla html//"@.is_prefix_of(p)) by {
        reveal_strlit("-//webtechs//dtd mozilla html//");
        lemma_differs("-//webtechs//dtd mozilla html//"@, p, start, 4);
    }
    assert(p != "-//w3o//dtd w3 html strict 3.0//en//"@) by {
        reveal_strlit("-//w3o//dtd w3 html strict 3.0//en//");
        assert(start[5] != "-//w3o//dtd w3 html strict 3.0//en//"@[5]);
    }
    assert(p != "-/w3c/dtd html 4.0 transitional/en"@) by {
        reveal_strlit("-/w3c/dtd html 4.0 transitional/en");
        assert(start[2] != "-/w3c/dtd html 4.0 transitional/en"@[2]);
    }
    assert(p != "html"@) by {
        reveal_strlit("html");
        assert(start[0] != "html"@[0]);
    }
}

/// Nor are identifiers of XHTML.
#[verifier::spinoff_prover]
#[verifier::rlimit(30)]
proof fn lemma_xhtml_not_quirky(p: Seq<char>)
    requires
        "-//w3c//dtd xhtml 1."@.is_prefix_of(p),
    ensures
        !quirky_public_prefix(p),
        !quirky_public(p),
{
    let start = "-//w3c//dtd xhtml 1."@;
    reveal_strlit("-//w3c//dtd xhtml 1.");
    assert forall|k: int| 0 <= k < start.len() implies p[k] == #[trigger] start[k] by {
        assert(start =~= p.take(start.len() as int));
    }
    assert(!"-//advasoft ltd//dtd html 3.0 aswedit + extensions//"@.is_prefix_of(p)) by {
        reveal_strlit("-//advasoft ltd//dtd html 3.0 aswedit + extensions//");
        lemma_differs("-//advasoft ltd//dtd html 3.0 aswedit + extensions//"@, p, start, 3);
    }
    assert(!"-//as//dtd html 3.0 aswedit + extensions//"@.is_prefix_of(p)) by {
        reveal_strlit("-//as//dtd html 3.0 aswedit + extensions//");
        lemma_differs("-//as//dtd html 3.0 aswedit + extensions//"@, p, start, 3);
    }
    assert(!"-//ietf//dtd html 2.0 level 1//"@.is_prefix_of(p)) by {
        reveal_strlit("-//ietf//dtd html 2.0 level 1//");
        lemma_differs("-//ietf//dtd html 2.0 level 1//"@, p, start, 3);
    }
    assert(!"-//ietf//dtd html 2.0 level 2//"@.is_prefix_of(p)) by {
        reveal_strlit("-//ietf//dtd html 2.0 level 2//");
        lemma_differs("-//ietf//dtd html 2.0 level 2//"@, p, start, 3);
    }
    assert(!"-//ietf//dtd html 2.0 strict level 1//"@.is_prefix_of(p)) by {
        reveal_strlit("-//ietf//dtd html 2.0 strict level 1//");
        lemma_differs("-//ietf//dtd html 2.0 strict level 1//"@, p, start, 3);
    }
    assert(!"-//ietf//dtd html 2.0 strict level 2//"@.is_prefix_of(p)) by {
        reveal_strlit("-//ietf//dtd html 2.0 strict level 2//");
        lemma_differs("-//ietf//dtd html 2.0 strict level 2//"@, p, start, 3);
    }
    assert(!"-//ietf//dtd html 2.0 strict//"@.is_prefix_of(p)) by {
        reveal_strlit("-//ietf//dtd html 2.0 strict//");
        lemma_differs("-//ietf//dtd html 2.0 strict//"@, p, start, 3);
    }
    assert(!"-//ietf//dtd html 2.0//"@.is_prefix_of(p)) by {
        reveal_strlit("-//ietf//dtd html 2.0//");
        lemma_differs("-//ietf//dtd html 2.0//"@, p, start, 3);
    }
    assert(!"-//ietf//dtd html 2.1e//"@.is_prefix_of(p)) by {
        reveal_strlit("-//ietf//dtd html 2.1e//");
        lemma_differs("-//ietf//dtd html 2.1e//"@, p, start, 3);
    }
    assert(!"-//ietf//dtd html 3.0//"@.is_prefix_of(p)) by {
        reveal_strlit("-//ietf//dtd html 3.0//");
        lemma_differs("-//ietf//dtd html 3.0//"@, p, start, 3);
    }
    assert(!"-//ietf//dtd html 3.2 final//"@.is_prefix_of(p)) by {
        reveal_strlit("-//ietf//dtd html 3.2 final//");
        lemma_differs("-//ietf//dtd html 3.2 final//"@, p, start, 3);
    }
    assert(!"-//ietf//dtd html 3.2//"@.is_prefix_of(p)) by {
        reveal_strlit("-//ietf//dtd html 3.2//");
        lemma_differs("-//ietf//dtd html 3.2//"@, p, start, 3);
    }
    assert(!"-//ietf//dtd html 3//"@.is_prefix_of(p)) by {
        reveal_strlit("-//ietf//dtd html 3//");
        lemma_differs("-//ietf//dtd html 3//"@, p, start, 3);
    }
    assert(!"-//ietf//dtd html level 0//"@.is_prefix_of(p)) by {
        reveal_strlit("-//ietf//dtd html level 0//");
        lemma_differs("-//ietf//dtd html level 0//"@, p, start, 3);
    }
    assert(!"-//ietf//dtd html level 1//"@.is_prefix_of(p)) by {
        reveal_strlit("-//ietf//dtd html level 1//");
        lemma_differs("-//ietf//dtd html level 1//"@, p, start, 3);
    }
    assert(!"-//ietf//dtd html level 2//"@.is_prefix_of(p)) by {
        reveal_strlit("-//ietf//dtd html level 2//");
        lemma_differs("-//ietf//dtd html level 2//"@, p, start, 3);
    }
    assert(!"-//ietf//dtd html level 3//"@.is_prefix_of(p)) by {
        reveal_strlit("-//ietf//dtd html level 3//");
        lemma_differs("-//ietf//dtd html level 3//"@, p, start, 3);
    }
    assert(!"-//ietf//dtd html strict level 0//"@.is_prefix_of(p)) by {
        reveal_strlit("-//ietf//dtd html strict level 0//");
        lemma_differs("-//ietf//dtd html strict level 0//"@, p, start, 3);
    }
    assert(!"-//ietf//dtd html strict level 1//"@.is_prefix_of(p)) by {
        reveal_strlit("-//ietf//dtd html strict level 1//");
        lemma_differs("-//ietf//dtd html strict level 1//"@, p, start, 3);
    }
    assert(!"-//ietf//dtd html strict level 2//"@.is_prefix_of(p)) by {
        reveal_strlit("-//ietf//dtd html strict level 2//");
        lemma_differs("-//ietf//dtd html strict level 2//"@, p, start, 3);
    }
    assert(!"-//ietf//dtd html strict level 3//"@.is_prefix_of(p)) by {
        reveal_strlit("-//ietf//dtd html strict level 3//");
        lemma_differs("-//ietf//dtd html strict level 3//"@, p, start, 3);
    }
    assert(!"-//ietf//dtd html strict//"@.is_prefix_of(p)) by {
        reveal_strlit("-//ietf//dtd html strict//");
        lemma_differs("-//ietf//dtd html strict//"@, p, start, 3);
    }
    assert(!"-//ietf//dtd html//"@.is_prefix_of(p)) by {
        reveal_strlit("-//ietf//dtd html//");
        lemma_differs("-//ietf//dtd html//"@, p, start, 3);
    }
    assert(!"-//metrius//dtd metrius presentational//"@.is_prefix_of(p)) by {
        reveal_strlit("-//metrius//dtd metrius presentational//");
        lemma_differs("-//metrius//dtd metrius presentational//"@, p, start, 3);
    }
    assert(!"-//microsoft//dtd internet explorer 2.0 html strict//"@.is_prefix_of(p)) by {
        reveal_strlit("-//microsoft//dtd internet explorer 2.0 html strict//");
        lemma_differs("-//microsoft//dtd internet explorer 2.0 html strict//"@, p, start, 3);
    }
    assert(!"-//microsoft//dtd internet explorer 2.0 html//"@.is_prefix_of(p)) by {
        reveal_strlit("-//microsoft//dtd internet explorer 2.0 html//");
        lemma_differs("-//microsoft//dtd internet explorer 2.0 html//"@, p, start, 3);
    }
    assert(!"-//microsoft//dtd internet explorer 2.0 tables//"@.is_prefix_of(p)) by {
        reveal_strlit("-//microsoft//dtd internet explorer 2.0 tables//");
        lemma_differs("-//microsoft//dtd internet explorer 2.0 tables//"@, p, start, 3);
    }
    assert(!"-//microsoft//dtd internet explorer 3.0 html strict//"@.is_prefix_of(p)) by {
        reveal_strlit("-//microsoft//dtd internet explorer 3.0 html strict//");
        lemma_differs("-//microsoft//dtd internet explorer 3.0 html strict//"@, p, start, 3);
    }
    assert(!"-//microsoft//dtd internet explorer 3.0 html//"@.is_prefix_of(p)) by {
        reveal_strlit("-//microsoft//dtd internet explorer 3.0 html//");
        lemma_differs("-//microsoft//dtd internet explorer 3.0 html//"@, p, start, 3);
    }
    assert(!"-//microsoft//dtd internet explorer 3.0 tables//"@.is_prefix_of(p)) by {
        reveal_strlit("-//microsoft//dtd internet explorer 3.0 tables//");
        lemma_differs("-//microsoft//dtd internet explorer 3.0 tables//"@, p, start, 3);
    }
    assert(!"-//netscape comm. corp.//dtd html//"@.is_prefix_of(p)) by {
        reveal_strlit("-//netscape comm. corp.//dtd html//");
        lemma_differs("-//netscape comm. corp.//dtd html//"@, p, start, 3);
    }
    assert(!"-//netscape comm. corp.//dtd strict html//"@.is_prefix_of(p)) by {
        reveal_strlit("-//netscape comm. corp.//dtd strict html//");
        lemma_differs("-//netscape comm. corp.//dtd strict html//"@, p, start, 3);
    }
    assert(!"-//o'reilly and associates//dtd html 2.0//"@.is_prefix_of(p)) by {
        reveal_strlit("-//o'reilly and associates//dtd html 2.0//");
        lemma_differs("-//o'reilly and associates//dtd html 2.0//"@, p, start, 3);
    }
    assert(!"-//o'reilly and associates//dtd html extended 1.0//"@.is_prefix_of(p)) by {
        reveal_strlit("-//o'reilly and associates//dtd html extended 1.0//");
        lemma_differs("-//o'reilly and associates//dtd html extended 1.0//"@, p, start, 3);
    }
    assert(!"-//o'reilly and associates//dtd html extended relaxed 1.0//"@.is_prefix_of(p)) by {
        reveal_strlit("-//o'reilly and associates//dtd html extended relaxed 1.0//");
        lemma_differs("-//o'reilly and associates//dtd html extended relaxed 1.0//"@, p, start, 3);
    }
    assert(!"-//softquad software//dtd hotmetal pro 6.0::19990601::extensions to html 4.0//"@.is_prefix_of(p)) by {
        reveal_strlit("-//softquad software//dtd hotmetal pro 6.0::19990601::extensions to html 4.0//");
        lemma_differs("-//softquad software//dtd hotmetal pro 6.0::19990601::extensions to html 4.0//"@, p, start, 3);
    }
    assert(!"-//softquad//dtd hotmetal pro 4.0::19971010::extensions to html 4.0//"@.is_prefix_of(p)) by {
        reveal_strlit("-//softquad//dtd hotmetal pro 4.0::19971010::extensions to html 4.0//");
        lemma_differs("-//softquad//dtd hotmetal pro 4.0::19971010::extensions to html 4.0//"@, p, start, 3);
    }
    assert(!"-//spyglass//dtd html 2.0 extended//"@.is_prefix_of(p)) by {
        reveal_strlit("-//spyglass//dtd html 2.0 extended//");
        lemma_differs("-//spyglass//dtd html 2.0 extended//"@, p, start, 3);
    }
    assert(!"-//sq//dtd html 2.0 hotmetal + extensions//"@.is_prefix_of(p)) by {
        reveal_strlit("-//sq//dtd html 2.0 hotmetal + extensions//");
        lemma_differs("-//sq//dtd html 2.0 hotmetal + extensions//"@, p, start, 3);
    }
    assert(!"-//sun microsystems corp.//dtd hotjava html//"@.is_prefix_of(p)) by {
        reveal_strlit("-//sun microsystems corp.//dtd hotjava html//");
        lemma_differs("-//sun microsystems corp.//dtd hotjava html//"@, p, start, 3);
    }
    assert(!"-//sun microsystems corp.//dtd hotjava strict html//"@.is_prefix_of(p)) by {
        reveal_strlit("-//sun microsystems corp.//dtd hotjava strict html//");
        lemma_differs("-//sun microsystems corp.//dtd hotjava strict html//"@, p, start, 3);
    }
    assert(!"-//w3c//dtd html 3 1995-03-24//"@.is_prefix_of(p)) by {
        reveal_strlit("-//w3c//dtd html 3 1995-03-24//");
        lemma_differs("-//w3c//dtd html 3 1995-03-24//"@, p, start, 12);
    }
    assert(!"-//w3c//dtd html 3.2 draft//"@.is_prefix_of(p)) by {
        reveal_strlit("-//w3c//dtd html 3.2 draft//");
        lemma_differs("-//w3c//dtd html 3.2 draft//"@, p, start, 12);
    }
    assert(!"-//w3c//dtd html 3.2 final//"@.is_prefix_of(p)) by {
        reveal_strlit("-//w3c//dtd html 3.2 final//");
        lemma_differs("-//w3c//dtd html 3.2 final//"@, p, start, 12);
    }
    assert(!"-//w3c//dtd html 3.2//"@.is_prefix_of(p)) by {
        reveal_strlit("-//w3c//dtd html 3.2//");
        lemma_differs("-//w3c//dtd html 3.2//"@, p, start, 12);
    }
    assert(!"-//w3c//dtd html 3.2s draft//"@.is_prefix_of(p)) by {
        reveal_strlit("-//w3c//dtd html 3.2s draft//");
        lemma_differs("-//w3c//dtd html 3.2s draft//"@, p, start, 12);
    }
    assert(!"-//w3c//dtd html 4.0 frameset//"@.is_prefix_of(p)) by {
        reveal_strlit("-//w3c//dtd html 4.0 frameset//");
        lemma_differs("-//w3c//dtd html 4.0 frameset//"@, p, start, 12);
    }
    assert(!"-//w3c//dtd html 4.0 transitional//"@.is_prefix_of(p)) by {
        reveal_strlit("-//w3c//dtd html 4.0 transitional//");
        lemma_differs("-//w3c//dtd html 4.0 transitional//"@, p, start, 12);
    }
    assert(!"-//w3c//dtd html experimental 19960712//"@.is_prefix_of(p)) by {
        reveal_strlit("-//w3c//dtd html experimental 19960712//");
        lemma_differs("-//w3c//dtd html experimental 19960712//"@, p, start, 12);
    }
    assert(!"-//w3c//dtd html experimental 970421//"@.is_prefix_of(p)) by {
        reveal_strlit("-//w3c//dtd html experimental 970421//");
        lemma_differs("-//w3c//dtd html experimental 970421//"@, p, start, 12);
    }
    assert(!"-//w3c//dtd w3 html//"@.is_prefix_of(p)) by {
        reveal_strlit("-//w3c//dtd w3 html//");
        lemma_differs("-//w3c//dtd w3 html//"@, p, start, 12);
    }
    assert(!"-//w3o//dtd w3 html 3.0//"@.is_prefix_of(p)) by {
        reveal_strlit("-//w3o//dtd w3 html 3.0//");
        lemma_differs("-//w3o//dtd w3 html 3.0//"@, p, start, 5);
    }
    assert(!"-//webtechs//dtd mozilla html 2.0//"@.is_prefix_of(p)) by {
        reveal_strlit("-//webtechs//dtd mozilla html 2.0//");
        lemma_differs("-//webtechs//dtd mozilla html 2.0//"@, p, start, 4);
    }
    assert(!"-//webtechs//dtd mozilla html//"@.is_prefix_of(p)) by {
        reveal_strlit("-//webtechs//dtd mozilla html//");
        lemma_differs("-//webtechs//dtd mozilla html//"@, p, start, 4);
    }
    assert(p != "-//w3o//dtd w3 html strict 3.0//en//"@) by {
        reveal_strlit("-//w3o//dtd w3 html strict 3.0//en//");
        assert(start[5] != "-//w3o//dtd w3 html strict 3.0//en//"@[5]);
    }
    assert(p != "-/w3c/dtd html 4.0 transitional/en"@) by {
        reveal_strlit("-/w3c/dtd html 4.0 transitional/en");
        assert(start[2] != "-/w3c/dtd html 4.0 transitional/en"@[2]);
    }
    assert(p != "html"@) by {
        reveal_strlit("html");
        assert(start[0] != "html"@[0]);
    }
}

/// The doctypes for the change to strict markup, with frames or without: those of XHTML call
/// for limited quirks, and so do those of the last HTML before it, if they have a system
/// identifier. Without one, those call for quirks.
#[verifier::spinoff_prover]
#[verifier::rlimit(30)]
pub proof fn law_transitional_doctypes(d: DoctypeView, p: Seq<char>)
    requires
        d.name == Some("html"@),
        !d.force_quirks,
        d.public_id == Some(p),
        d.system_id matches Some(s) ==> lower_text(s)
            != "http://www.ibm.com/data/dtd/v11/ibmxhtml1-transitional.dtd"@,
    ensures
        "-//w3c//dtd xhtml 1.0 transitional//"@.is_prefix_of(lower_text(p))
            || "-//w3c//dtd xhtml 1.0 frameset//"@.is_prefix_of(lower_text(p)) ==> doctype_quirks(
            d,
            false,
        ) == QuirksMode::LimitedQuirks,
        "-//w3c//dtd html 4.01 transitional//"@.is_prefix_of(lower_text(p))
            || "-//w3c//dtd html 4.01 frameset//"@.is_prefix_of(lower_text(p)) ==> doctype_quirks(
            d,
            false,
        ) == (if d.system_id is Some {
            QuirksMode::LimitedQuirks
        } else {
            QuirksMode::Quirks
        }),
{
    let q = lower_text(p);
    let html = "-//w3c//dtd html 4.01"@;
    let xhtml = "-//w3c//dtd xhtml 1."@;
    let x1 = "-//w3c//dtd xhtml 1.0 transitional//"@;
    let x2 = "-//w3c//dtd xhtml 1.0 frameset//"@;
    let h1 = "-//w3c//dtd html 4.01 transitional//"@;
    let h2 = "-//w3c//dtd html 4.01 frameset//"@;
    reveal_strlit("-//w3c//dtd html 4.01");
    reveal_strlit("-//w3c//dtd xhtml 1.");
    reveal_strlit("-//w3c//dtd xhtml 1.0 transitional//");
    reveal_strlit("-//w3c//dtd xhtml 1.0 frameset//");
    reveal_strlit("-//w3c//dtd html 4.01 transitional//");
    reveal_strlit("-//w3c//dtd html 4.01 frameset//");
    assert(xhtml =~= x1.take(xhtml.len() as int));
    assert(xhtml =~= x2.take(xhtml.len() as int));
    assert(html =~= h1.take(html.len() as int));
    assert(html =~= h2.take(html.len() as int));
    if x1.is_prefix_of(q) {
        lemma_begins(xhtml, x1, q);
        lemma_xhtml_not_quirky(q);
    }
    if x2.is_prefix_of(q) {
        lemma_begins(xhtml, x2, q);
        lemma_xhtml_not_quirky(q);
    }
    if h1.is_prefix_of(q) || h2.is_prefix_of(q) {
        if h1.is_prefix_of(q) {
            lemma_begins(html, h1, q);
        } else {
            lemma_begins(html, h2, q);
        }
        lemma_html_not_quirky(q);
        assert(q[12] == 'h') by {
            assert(html =~= q.take(html.len() as int));
            assert(q.take(html.len() as int)[12] == q[12]);
        }
        lemma_differs(x1, q, html, 12);
        lemma_differs(x2, q, html, 12);
    }
}

/// Is the public identifier, in small letters, in none of the tables?
spec fn in_no_table(p: Seq<char>) -> bool {
    &&& !quirky_public(p)
    &&& !quirky_public_prefix(p)
    &&& !limited_quirky_public_prefix(p)
    &&& !html4_public_prefix(p)
}

/// A public identifier of a doctype that is no error.
#[verifier::spinoff_prover]
proof fn lemma_fine_html4()
    ensures
        in_no_table(lower_text("-//W3C//DTD HTML 4.0//EN"@)),
{
    let p = lower_text("-//W3C//DTD HTML 4.0//EN"@);
    let q = "-//w3c//dtd html 4.0//en"@;
    let start = "-//w3c//dtd html 4.0//"@;
    reveal_strlit("-//W3C//DTD HTML 4.0//EN");
    reveal_strlit("-//w3c//dtd html 4.0//en");
    reveal_strlit("-//w3c//dtd html 4.0//");
    assert(p =~= q);
    assert(start =~= p.take(start.len() as int));
    lemma_strict_html_not_quirky(p);
    assert(!"-//w3c//dtd xhtml 1.0 frameset//"@.is_prefix_of(p)) by {
        reveal_strlit("-//w3c//dtd xhtml 1.0 frameset//");
        lemma_differs("-//w3c//dtd xhtml 1.0 frameset//"@, p, q, 12);
    }
    assert(!"-//w3c//dtd xhtml 1.0 transitional//"@.is_prefix_of(p)) by {
        reveal_strlit("-//w3c//dtd xhtml 1.0 transitional//");
        lemma_differs("-//w3c//dtd xhtml 1.0 transitional//"@, p, q, 12);
    }
    assert(!"-//w3c//dtd html 4.01 frameset//"@.is_prefix_of(p)) by {
        reveal_strlit("-//w3c//dtd html 4.01 frameset//");
        lemma_differs("-//w3c//dtd html 4.01 frameset//"@, p, q, 20);
    }
    assert(!"-//w3c//dtd html 4.01 transitional//"@.is_prefix_of(p)) by {
        reveal_strlit("-//w3c//dtd html 4.01 transitional//");
        lemma_differs("-//w3c//dtd html 4.01 transitional//"@, p, q, 20);
    }
}

/// A public identifier of a doctype that is no error.
#[verifier::spinoff_prover]
proof fn lemma_fine_html401()
    ensures
        in_no_table(lower_text("-//W3C//DTD HTML 4.01//EN"@)),
{
    let p = lower_text("-//W3C//DTD HTML 4.01//EN"@);
    let q = "-//w3c//dtd html 4.01//en"@;
    let start = "-//w3c//dtd html 4.01"@;
    reveal_strlit("-//W3C//DTD HTML 4.01//EN");
    reveal_strlit("-//w3c//dtd html 4.01//en");
    reveal_strlit("-//w3c//dtd html 4.01");
    assert(p =~= q);
    assert(start =~= p.take(start.len() as int));
    lemma_html_not_quirky(p);
    assert(!"-//w3c//dtd xhtml 1.0 frameset//"@.is_prefix_of(p)) by {
        reveal_strlit("-//w3c//dtd xhtml 1.0 frameset//");
        lemma_differs("-//w3c//dtd xhtml 1.0 frameset//"@, p, q, 12);
    }
    assert(!"-//w3c//dtd xhtml 1.0 transitional//"@.is_prefix_of(p)) by {
        reveal_strlit("-//w3c//dtd xhtml 1.0 transitional//");
        lemma_differs("-//w3c//dtd xhtml 1.0 transitional//"@, p, q, 12);
    }
    assert(!"-//w3c//dtd html 4.01 frameset//"@.is_prefix_of(p)) by {
        reveal_strlit("-//w3c//dtd html 4.01 frameset//");
        lemma_differs("-//w3c//dtd html 4.01 frameset//"@, p, q, 21);
    }
    assert(!"-//w3c//dtd html 4.01 transitional//"@.is_prefix_of(p)) by {
        reveal_strlit("-//w3c//dtd html 4.01 transitional//");
        lemma_differs("-//w3c//dtd html 4.01 transitional//"@, p, q, 21);
    }
}

/// A public identifier of a doctype that is no error.
#[verifier::spinoff_prover]
proof fn lemma_fine_xhtml10()
    ensures
        in_no_table(lower_text("-//W3C//DTD XHTML 1.0 Strict//EN"@)),
{
    let p = lower_text("-//W3C//DTD XHTML 1.0 Strict//EN"@);
    let q = "-//w3c//dtd xhtml 1.0 strict//en"@;
    let start = "-//w3c//dtd xhtml 1."@;
    reveal_strlit("-//W3C//DTD XHTML 1.0 Strict//EN");
    reveal_strlit("-//w3c//dtd xhtml 1.0 strict//en");
    reveal_strlit("-//w3c//dtd xhtml 1.");
    assert(p =~= q);
    assert(start =~= p.take(start.len() as int));
    lemma_xhtml_not_quirky(p);
    assert(!"-//w3c//dtd xhtml 1.0 frameset//"@.is_prefix_of(p)) by {
        reveal_strlit("-//w3c//dtd xhtml 1.0 frameset//");
        lemma_differs("-//w3c//dtd xhtml 1.0 frameset//"@, p, q, 22);
    }
    assert(!"-//w3c//dtd xhtml 1.0 transitional//"@.is_prefix_of(p)) by {
        reveal_strlit("-//w3c//dtd xhtml 1.0 transitional//");
        lemma_differs("-//w3c//dtd xhtml 1.0 transitional//"@, p, q, 22);
    }
    assert(!"-//w3c//dtd html 4.01 frameset//"@.is_prefix_of(p)) by {
        reveal_strlit("-//w3c//dtd html 4.01 frameset//");
        lemma_differs("-//w3c//dtd html 4.01 frameset//"@, p, q, 12);
    }
    assert(!"-//w3c//dtd html 4.01 transitional//"@.is_prefix_of(p)) by {
        reveal_strlit("-//w3c//dtd html 4.01 transitional//");
        lemma_differs("-//w3c//dtd html 4.01 transitional//"@, p, q, 12);
    }
}

/// A public identifier of a doctype that is no error.
#[verifier::spinoff_prover]
proof fn lemma_fine_xhtml11()
    ensures
        in_no_table(lower_text("-//W3C//DTD XHTML 1.1//EN"@)),
{
    let p = lower_text("-//W3C//DTD XHTML 1.1//EN"@);
    let q = "-//w3c//dtd xhtml 1.1//en"@;
    let start = "-//w3c//dtd xhtml 1."@;
    reveal_strlit("-//W3C//DTD XHTML 1.1//EN");
    reveal_strlit("-//w3c//dtd xhtml 1.1//en");
    reveal_strlit("-//w3c//dtd xhtml 1.");
    assert(p =~= q);
    assert(start =~= p.take(start.len() as int));
    lemma_xhtml_not_quirky(p);
    assert(!"-//w3c//dtd xhtml 1.0 frameset//"@.is_prefix_of(p)) by {
        reveal_strlit("-//w3c//dtd xhtml 1.0 frameset//");
        lemma_differs("-//w3c//dtd xhtml 1.0 frameset//"@, p, q, 20);
    }
    assert(!"-//w3c//dtd xhtml 1.0 transitional//"@.is_prefix_of(p)) by {
        reveal_strlit("-//w3c//dtd xhtml 1.0 transitional//");
        lemma_differs("-//w3c//dtd xhtml 1.0 transitional//"@, p, q, 20);
    }
    assert(!"-//w3c//dtd html 4.01 frameset//"@.is_prefix_of(p)) by {
        reveal_strlit("-//w3c//dtd html 4.01 frameset//");
        lemma_differs("-//w3c//dtd html 4.01 frameset//"@, p, q, 12);
    }
    assert(!"-//w3c//dtd html 4.01 transitional//"@.is_prefix_of(p)) by {
        reveal_strlit("-//w3c//dtd html 4.01 transitional//");
        lemma_differs("-//w3c//dtd html 4.01 transitional//"@, p, q, 12);
    }
}

/// The system identifiers of doctypes that are no error do not call for quirks.
#[verifier::spinoff_prover]
proof fn lemma_fine_systems()
    ensures
        !quirky_system(lower_text("about:legacy-compat"@)),
        !quirky_system(lower_text("http://www.w3.org/TR/REC-html40/strict.dtd"@)),
        !quirky_system(lower_text("http://www.w3.org/TR/html4/strict.dtd"@)),
        !quirky_system(lower_text("http://www.w3.org/TR/xhtml1/DTD/xhtml1-strict.dtd"@)),
        !quirky_system(lower_text("http://www.w3.org/TR/xhtml11/DTD/xhtml11.dtd"@)),
{
    reveal_strlit("http://www.ibm.com/data/dtd/v11/ibmxhtml1-transitional.dtd");
    assert(!quirky_system(lower_text("about:legacy-compat"@))) by {
        reveal_strlit("about:legacy-compat");
        assert(lower_text("about:legacy-compat"@)[0] != "http://www.ibm.com/data/dtd/v11/ibmxhtml1-transitional.dtd"@[0]);
    }
    assert(!quirky_system(lower_text("http://www.w3.org/TR/REC-html40/strict.dtd"@))) by {
        reveal_strlit("http://www.w3.org/TR/REC-html40/strict.dtd");
        assert(lower_text("http://www.w3.org/TR/REC-html40/strict.dtd"@)[11] != "http://www.ibm.com/data/dtd/v11/ibmxhtml1-transitional.dtd"@[11]);
    }
    assert(!quirky_system(lower_text("http://www.w3.org/TR/html4/strict.dtd"@))) by {
        reveal_strlit("http://www.w3.org/TR/html4/strict.dtd");
        assert(lower_text("http://www.w3.org/TR/html4/strict.dtd"@)[11] != "http://www.ibm.com/data/dtd/v11/ibmxhtml1-transitional.dtd"@[11]);
    }
    assert(!quirky_system(lower_text("http://www.w3.org/TR/xhtml1/DTD/xhtml1-strict.dtd"@))) by {
        reveal_strlit("http://www.w3.org/TR/xhtml1/DTD/xhtml1-strict.dtd");
        assert(lower_text("http://www.w3.org/TR/xhtml1/DTD/xhtml1-strict.dtd"@)[11] != "http://www.ibm.com/data/dtd/v11/ibmxhtml1-transitional.dtd"@[11]);
    }
    assert(!quirky_system(lower_text("http://www.w3.org/TR/xhtml11/DTD/xhtml11.dtd"@))) by {
        reveal_strlit("http://www.w3.org/TR/xhtml11/DTD/xhtml11.dtd");
        assert(lower_text("http://www.w3.org/TR/xhtml11/DTD/xhtml11.dtd"@)[11] != "http://www.ibm.com/data/dtd/v11/ibmxhtml1-transitional.dtd"@[11]);
    }
}

/// A doctype that is no error calls for no quirks, unless it was not complete.
pub proof fn law_fine_doctypes_have_no_quirks(d: DoctypeView, iframe_srcdoc: bool)
    requires
        doctype_is_fine(d),
        !d.force_quirks,
    ensures
        doctype_quirks(d, iframe_srcdoc) == QuirksMode::NoQuirks,
{
    lemma_fine_html4();
    lemma_fine_html401();
    lemma_fine_xhtml10();
    lemma_fine_xhtml11();
    lemma_fine_systems();
}

/// `html` alone is no error. With a system identifier alone, it is one unless that is
/// `about:legacy-compat`. A doctype with another name, or with none, is one in any case.
pub proof fn law_which_doctypes_are_errors(d: DoctypeView)
    ensures
        d.name == Some("html"@) && d.public_id is None ==> (doctype_is_fine(d) <==> (d.system_id
            matches Some(s) ==> s == "about:legacy-compat"@)),
        doctype_is_fine(d) ==> d.name == Some("html"@),
{
}

} // verus!
