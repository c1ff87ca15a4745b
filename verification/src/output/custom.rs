//! # output/custom
//!
//! Renders an entry through a user template with the placeholders `%(path)`,
//! `%(size)`, `%(modified)`, `%(git)` and `%(type)`.
use vstd::prelude::*;

use crate::fs::file::{EntryKind, FileTime};
use crate::fs::git::tag_of;
use crate::output::render::RenderedEntry;
use crate::text::{dec_digits, decimal, decimal_wide, replace_all, replace_text, string_of};

verus! {

pub open spec fn path_placeholder() -> Seq<char> {
    seq!['%', '(', 'p', 'a', 't', 'h', ')']
}

pub open spec fn size_placeholder() -> Seq<char> {
    seq!['%', '(', 's', 'i', 'z', 'e', ')']
}

pub open spec fn modified_placeholder() -> Seq<char> {
    seq!['%', '(', 'm', 'o', 'd', 'i', 'f', 'i', 'e', 'd', ')']
}

pub open spec fn git_placeholder() -> Seq<char> {
    seq!['%', '(', 'g', 'i', 't', ')']
}

pub open spec fn type_placeholder() -> Seq<char> {
    seq!['%', '(', 't', 'y', 'p', 'e', ')']
}

/// The name of an entry kind in templates.
pub open spec fn kind_name(kind: EntryKind) -> Seq<char> {
    match kind {
        EntryKind::File => seq!['f', 'i', 'l', 'e'],
        EntryKind::Directory => seq!['d', 'i', 'r'],
        EntryKind::Summary { .. } => seq!['s', 'u', 'm', 'm', 'a', 'r', 'y'],
    }
}

/// The modification time in templates: whole seconds since the Unix epoch, or `-`
/// when it is unknown or before the epoch.
pub open spec fn modified_secs_text(modified: Option<FileTime>) -> Seq<char> {
    match modified {
        Some(t) => if t.unix_nanos >= 0 {
            dec_digits((t.unix_nanos / 1_000_000_000) as nat)
        } else {
            seq!['-']
        },
        None => seq!['-'],
    }
}

/// The template with its placeholders replaced, one placeholder after the other.
pub open spec fn custom_text(template: Seq<char>, entry: RenderedEntry) -> Seq<char> {
    let t1 = replace_all(template, path_placeholder(), entry.path@);
    let t2 = replace_all(t1, size_placeholder(), dec_digits(entry.size as nat));
    let t3 = replace_all(t2, modified_placeholder(), modified_secs_text(entry.modified));
    let t4 = replace_all(t3, git_placeholder(), tag_of(entry.git));
    replace_all(t4, type_placeholder(), kind_name(entry.kind))
}

/// Substitutes the placeholders of `template` with the values of `entry`.
pub fn render_custom_format(template: &str, entry: &RenderedEntry) -> (r: String)
    ensures
        r@ == custom_text(template@, *entry),
{
    proof {
        reveal_strlit("file");
        reveal_strlit("dir");
        reveal_strlit("summary");
        reveal_strlit("-");
        reveal_strlit("%(path)");
        reveal_strlit("%(size)");
        reveal_strlit("%(modified)");
        reveal_strlit("%(git)");
        reveal_strlit("%(type)");
        assert("file"@ =~= kind_name(EntryKind::File));
        assert("dir"@ =~= kind_name(EntryKind::Directory));
        assert("summary"@ =~= seq!['s', 'u', 'm', 'm', 'a', 'r', 'y']);
        assert("-"@ =~= seq!['-']);
        assert("%(path)"@ =~= path_placeholder());
        assert("%(size)"@ =~= size_placeholder());
        assert("%(modified)"@ =~= modified_placeholder());
        assert("%(git)"@ =~= git_placeholder());
        assert("%(type)"@ =~= type_placeholder());
    }
    let kind = match entry.kind {
        EntryKind::File => "file",
        EntryKind::Directory => "dir",
        EntryKind::Summary { .. } => "summary",
    };
    let modified = match entry.modified {
        Some(t) => if t.unix_nanos >= 0 {
            decimal_wide((t.unix_nanos / 1_000_000_000) as u128)
        } else {
            string_of("-")
        },
        None => string_of("-"),
    };
    let size = decimal(entry.size);
    let rendered = replace_text(template, "%(path)", entry.path.as_str());
    let rendered = replace_text(rendered.as_str(), "%(size)", size.as_str());
    let rendered = replace_text(rendered.as_str(), "%(modified)", modified.as_str());
    let rendered = replace_text(rendered.as_str(), "%(git)", entry.git.tag());
    replace_text(rendered.as_str(), "%(type)", kind)
}

proof fn lemma_replace_without_percent(s: Seq<char>, pat: Seq<char>, rep: Seq<char>)
    requires
        !s.contains('%'),
        pat.len() > 0,
        pat[0] == '%',
    ensures
        replace_all(s, pat, rep) == s,
    decreases s.len(),
{
    if s.len() > 0 {
        if s.len() >= pat.len() && s.take(pat.len() as int) == pat {
            assert(s.take(pat.len() as int)[0] == s[0]);
            assert(s.contains(s[0]));
        }
        let rest = s.drop_first();
        assert(!rest.contains('%')) by {
            if rest.contains('%') {
                let i = choose|i: int| 0 <= i < rest.len() && rest[i] == '%';
                assert(s[i + 1] == '%');
                assert(s.contains(s[i + 1]));
            }
        }
        lemma_replace_without_percent(rest, pat, rep);
        assert(seq![s[0]] + rest =~= s);
    }
}

/// A template without `%` has no placeholder: every entry prints it as it is.
pub proof fn lemma_plain_template_unchanged(template: Seq<char>, entry: RenderedEntry)
    requires
        !template.contains('%'),
    ensures
        custom_text(template, entry) == template,
{
    lemma_replace_without_percent(template, path_placeholder(), entry.path@);
    lemma_replace_without_percent(template, size_placeholder(), dec_digits(entry.size as nat));
    lemma_replace_without_percent(template, modified_placeholder(), modified_secs_text(entry.modified));
    lemma_replace_without_percent(template, git_placeholder(), tag_of(entry.git));
    lemma_replace_without_percent(template, type_placeholder(), kind_name(entry.kind));
}

proof fn lemma_replace_exact(pat: Seq<char>, rep: Seq<char>)
    requires
        pat.len() > 0,
    ensures
        replace_all(pat, pat, rep) == rep,
{
    assert(pat.take(pat.len() as int) =~= pat);
    assert(pat.skip(pat.len() as int) =~= Seq::<char>::empty());
    assert(replace_all(pat.skip(pat.len() as int), pat, rep) == Seq::<char>::empty());
    assert(rep + Seq::<char>::empty() =~= rep);
}

proof fn lemma_replace_other_placeholder(s: Seq<char>, pat: Seq<char>, rep: Seq<char>)
    requires
        s.len() > 0,
        s[0] == '%',
        !s.drop_first().contains('%'),
        pat.len() > 0,
        pat[0] == '%',
        s.len() < pat.len() || s.take(pat.len() as int) != pat,
    ensures
        replace_all(s, pat, rep) == s,
{
    lemma_replace_without_percent(s.drop_first(), pat, rep);
    assert(seq![s[0]] + s.drop_first() =~= s);
}

proof fn lemma_no_percent_digits(n: nat)
    ensures
        !dec_digits(n).contains('%'),
    decreases n,
{
    if n >= 10 {
        lemma_no_percent_digits(n / 10);
        let d = dec_digits(n);
        assert forall|i: int| 0 <= i < d.len() implies d[i] != '%' by {
            if i < d.len() - 1 {
                assert(d[i] == dec_digits(n / 10)[i]);
            }
        }
    }
}

/// Each placeholder alone is replaced by its value: `%(path)` by the path (when the path
/// holds no `%`), `%(size)` by the size in decimal, `%(git)` by the one-character status
/// tag, and `%(type)` by `file`, `dir` or `summary`.
pub proof fn lemma_placeholders_alone(e: RenderedEntry)
    ensures
        !e.path@.contains('%') ==> custom_text(seq!['%', '(', 'p', 'a', 't', 'h', ')'], e) == e.path@,
        custom_text(seq!['%', '(', 's', 'i', 'z', 'e', ')'], e) == dec_digits(e.size as nat),
        custom_text(seq!['%', '(', 'g', 'i', 't', ')'], e) == tag_of(e.git),
        tag_of(e.git).len() == 1,
        custom_text(seq!['%', '(', 't', 'y', 'p', 'e', ')'], e) == match e.kind {
            EntryKind::File => seq!['f', 'i', 'l', 'e'],
            EntryKind::Directory => seq!['d', 'i', 'r'],
            EntryKind::Summary { .. } => seq!['s', 'u', 'm', 'm', 'a', 'r', 'y'],
        },
{
    let size_text = dec_digits(e.size as nat);
    let time_text = modified_secs_text(e.modified);
    let tag = tag_of(e.git);
    let kind = kind_name(e.kind);
    let pp = path_placeholder();
    let sp = size_placeholder();
    let mp = modified_placeholder();
    let gp = git_placeholder();
    let tp = type_placeholder();
    lemma_no_percent_digits(e.size as nat);
    assert(!tag.contains('%'));
    assert(!kind.contains('%'));
    if !e.path@.contains('%') {
        lemma_replace_exact(pp, e.path@);
        lemma_plain_template_unchanged_with(e.path@, e);
    }
    assert(!sp.drop_first().contains('%'));
    assert(sp.take(7) != pp) by {
        assert(sp.take(7)[1] == '(' && sp.take(7)[2] == 's' && pp[2] == 'p');
    }
    lemma_replace_other_placeholder(sp, pp, e.path@);
    lemma_replace_exact(sp, size_text);
    lemma_replace_without_percent(size_text, mp, time_text);
    lemma_replace_without_percent(size_text, gp, tag);
    lemma_replace_without_percent(size_text, tp, kind);
    assert(!gp.drop_first().contains('%'));
    assert(gp.len() < pp.len());
    lemma_replace_other_placeholder(gp, pp, e.path@);
    assert(gp.len() < sp.len());
    lemma_replace_other_placeholder(gp, sp, size_text);
    assert(gp.len() < mp.len());
    lemma_replace_other_placeholder(gp, mp, time_text);
    lemma_replace_exact(gp, tag);
    lemma_replace_without_percent(tag, tp, kind);
    assert(!tp.drop_first().contains('%'));
    assert(tp.take(7) != pp) by {
        assert(tp.take(7)[2] == 't');
    }
    lemma_replace_other_placeholder(tp, pp, e.path@);
    assert(tp.take(7) != sp) by {
        assert(tp.take(7)[2] == 't');
    }
    lemma_replace_other_placeholder(tp, sp, size_text);
    lemma_replace_other_placeholder(tp, mp, time_text);
    assert(tp.take(6) != gp) by {
        assert(tp.take(6)[2] == 't');
    }
    lemma_replace_other_placeholder(tp, gp, tag);
    lemma_replace_exact(tp, kind);
}

proof fn lemma_plain_template_unchanged_with(t: Seq<char>, e: RenderedEntry)
    requires
        !t.contains('%'),
    ensures
        replace_all(t, size_placeholder(), dec_digits(e.size as nat)) == t,
        replace_all(t, modified_placeholder(), modified_secs_text(e.modified)) == t,
        replace_all(t, git_placeholder(), tag_of(e.git)) == t,
        replace_all(t, type_placeholder(), kind_name(e.kind)) == t,
{
    lemma_replace_without_percent(t, size_placeholder(), dec_digits(e.size as nat));
    lemma_replace_without_percent(t, modified_placeholder(), modified_secs_text(e.modified));
    lemma_replace_without_percent(t, git_placeholder(), tag_of(e.git));
    lemma_replace_without_percent(t, type_placeholder(), kind_name(e.kind));
}

} // verus!
