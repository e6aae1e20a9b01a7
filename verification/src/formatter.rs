//! The reformatting pipeline: the spacing transform followed by the
//! trim / indent / blank-line rules, with its idempotence laws.

use vstd::prelude::*;

use crate::config::NovelSagaConfig;
use crate::config::FmtConfig;
use crate::text::last_index;
use crate::text::lemma_last_index_bounds;
use crate::text::rfind;
use crate::text::lemma_lines_no_nl_elems;
use crate::text::lemma_lines_prepend;
use crate::text::lemma_lines_single;
use crate::text::lemma_trim_clean;
use crate::text::lemma_trim_indented;
use crate::text::lemma_trim_props;
use crate::text::lines_spec;
use crate::text::newlines;
use crate::text::no_nl;
use crate::text::spaces;
use crate::text::split_lines;
use crate::text::trim_spec;
use crate::text::trim_str;

verus! {

/// Whether `p` names a markdown file: the extension of its final path
/// component equals `md` up to ASCII case. As with `Path::extension`, a
/// leading dot opens a hidden file name, not an extension.
pub open spec fn is_md_path(p: Seq<char>) -> bool {
    let f = p.skip(last_index(p, '/') + 1);
    let d = last_index(f, '.');
    d > 0 && {
        let e = f.skip(d + 1);
        e.len() == 2 && (e[0] == 'm' || e[0] == 'M') && (e[1] == 'd' || e[1] == 'D')
    }
}

/// Whether `path` names a markdown file, per [`is_md_path`].
pub fn is_markdown_path(path: &str) -> (r: bool)
    ensures
        r == is_md_path(path@),
{
    let n = path.unicode_len();
    let start = match rfind(path, '/') {
        Some(i) => i + 1,
        None => 0,
    };
    proof {
        lemma_last_index_bounds(path@, '/');
    }
    let f = path.substring_char(start, n);
    proof {
        assert(f@ =~= path@.skip(last_index(path@, '/') + 1));
    }
    let m = f.unicode_len();
    match rfind(f, '.') {
        None => false,
        Some(d) => {
            if d == 0 {
                false
            } else {
                proof {
                    lemma_last_index_bounds(f@, '.');
                }
                let e = f.substring_char(d + 1, m);
                proof {
                    assert(e@ =~= f@.skip(d as int + 1));
                }
                if e.unicode_len() == 2 {
                    let c0 = e.get_char(0);
                    let c1 = e.get_char(1);
                    (c0 == 'm' || c0 == 'M') && (c1 == 'd' || c1 == 'D')
                } else {
                    false
                }
            }
        },
    }
}

/// What `pangu::spacing` returns for a given text; a deterministic function
/// of the text alone.
pub uninterp spec fn spaced_of(s: Seq<char>) -> Seq<char>;

/// Relies on `pangu::spacing`: a fixed pipeline of regular-expression
/// replacements, so the result depends on the input text alone; none of its
/// patterns matches in the empty text, which therefore stays empty.
#[verifier::external_body]
fn spacing(s: &str) -> (r: String)
    ensures
        r@ == spaced_of(s@),
        s@.len() == 0 ==> r@.len() == 0,
{
    pangu::spacing(s).into_owned()
}

/// The trimmed forms of the non-blank lines, in order.
pub open spec fn kept_lines(ls: Seq<Seq<char>>) -> Seq<Seq<char>>
    decreases ls.len(),
{
    if ls.len() == 0 {
        Seq::empty()
    } else {
        let t = trim_spec(ls.first());
        let rest = kept_lines(ls.drop_first());
        if t.len() == 0 {
            rest
        } else {
            seq![t] + rest
        }
    }
}

/// The kept lines, each indented by `indent` spaces, joined with `gap`
/// blank lines between consecutive lines.
pub open spec fn reflow(indent: nat, gap: nat, kept: Seq<Seq<char>>) -> Seq<char>
    decreases kept.len(),
{
    if kept.len() == 0 {
        Seq::empty()
    } else if kept.len() == 1 {
        spaces(indent) + kept.first()
    } else {
        spaces(indent) + kept.first() + newlines(gap + 1) + reflow(indent, gap, kept.drop_first())
    }
}

/// What the pipeline produces from already-spaced text: the text itself in
/// markdown-short-circuit mode, otherwise the reflowed kept lines.
pub open spec fn format_spaced_spec(fmt: FmtConfig, md: bool, s: Seq<char>) -> Seq<char> {
    if md && fmt.markdown_only_use_pangu {
        s
    } else {
        reflow(
            fmt.indent_spaces as nat,
            fmt.blank_lines_between_paragraphs as nat,
            kept_lines(lines_spec(s)),
        )
    }
}

/// What the whole pipeline produces: the spacing transform, then the
/// structural rules.
pub open spec fn format_spec(fmt: FmtConfig, content: Seq<char>, path: Seq<char>) -> Seq<char> {
    format_spaced_spec(fmt, is_md_path(path), spaced_of(content))
}

/// Every kept line is nonempty, newline-free and already trimmed.
pub open spec fn wf_kept(k: Seq<Seq<char>>) -> bool {
    forall|i: int|
        0 <= i < k.len() ==> (#[trigger] k[i]).len() > 0 && no_nl(k[i]) && trim_spec(k[i]) == k[i]
}

/// `g` blank lines.
pub open spec fn blank_lines(g: nat) -> Seq<Seq<char>> {
    Seq::new(g, |i: int| Seq::<char>::empty())
}

pub proof fn lemma_kept_lines_app(a: Seq<Seq<char>>, b: Seq<Seq<char>>)
    ensures
        kept_lines(a + b) == kept_lines(a) + kept_lines(b),
    decreases a.len(),
{
    if a.len() == 0 {
        assert(a + b =~= b);
        assert(kept_lines(a) + kept_lines(b) =~= kept_lines(b));
    } else {
        assert((a + b).first() == a.first());
        assert((a + b).drop_first() =~= a.drop_first() + b);
        lemma_kept_lines_app(a.drop_first(), b);
        let t = trim_spec(a.first());
        if t.len() == 0 {
            assert(kept_lines(a) + kept_lines(b) =~= kept_lines(a.drop_first()) + kept_lines(b));
        } else {
            assert(seq![t] + (kept_lines(a.drop_first()) + kept_lines(b)) =~= (seq![t]
                + kept_lines(a.drop_first())) + kept_lines(b));
        }
    }
}

pub proof fn lemma_kept_lines_wf(ls: Seq<Seq<char>>)
    requires
        forall|i: int| 0 <= i < ls.len() ==> no_nl(#[trigger] ls[i]),
    ensures
        wf_kept(kept_lines(ls)),
    decreases ls.len(),
{
    if ls.len() > 0 {
        assert forall|i: int| 0 <= i < ls.drop_first().len() implies no_nl(
            #[trigger] ls.drop_first()[i],
        ) by {
            assert(ls.drop_first()[i] == ls[i + 1]);
        }
        lemma_kept_lines_wf(ls.drop_first());
        let t = trim_spec(ls.first());
        lemma_trim_props(ls.first());
        if t.len() > 0 {
            lemma_trim_clean(t);
            assert forall|i: int| 0 <= i < kept_lines(ls).len() implies (#[trigger] kept_lines(
                ls,
            )[i]).len() > 0 && no_nl(kept_lines(ls)[i]) && trim_spec(kept_lines(ls)[i])
                == kept_lines(ls)[i] by {
                if i > 0 {
                    assert(kept_lines(ls)[i] == kept_lines(ls.drop_first())[i - 1]);
                }
            }
        }
    }
}

pub proof fn lemma_kept_blanks(g: nat)
    ensures
        kept_lines(blank_lines(g)) == Seq::<Seq<char>>::empty(),
    decreases g,
{
    if g > 0 {
        assert(blank_lines(g).first() =~= Seq::<char>::empty());
        assert(trim_spec(Seq::<char>::empty()).len() == 0);
        assert(blank_lines(g).drop_first() =~= blank_lines((g - 1) as nat));
        lemma_kept_blanks((g - 1) as nat);
    }
}

pub proof fn lemma_lines_nl_prefix(g: nat, r: Seq<char>)
    ensures
        lines_spec(newlines(g) + r) == blank_lines(g) + lines_spec(r),
    decreases g,
{
    if g == 0 {
        assert(newlines(0) + r =~= r);
        assert(blank_lines(0) + lines_spec(r) =~= lines_spec(r));
    } else {
        let rest = newlines((g - 1) as nat) + r;
        assert(newlines(g) + r =~= Seq::<char>::empty() + seq!['\n'] + rest);
        lemma_lines_prepend(Seq::<char>::empty(), rest);
        lemma_lines_nl_prefix((g - 1) as nat, r);
        assert(seq![Seq::<char>::empty()] + (blank_lines((g - 1) as nat) + lines_spec(r))
            =~= blank_lines(g) + lines_spec(r));
    }
}

pub proof fn lemma_reflow_nonempty(indent: nat, gap: nat, k: Seq<Seq<char>>)
    requires
        k.len() > 0,
        k[0].len() > 0,
    ensures
        reflow(indent, gap, k).len() > 0,
{
}

/// Reading the kept lines back out of a reflowed text recovers them
/// exactly: splitting drops the inserted blank lines, and trimming strips
/// exactly the inserted indentation.
pub proof fn lemma_reflow_roundtrip(indent: nat, gap: nat, k: Seq<Seq<char>>)
    requires
        wf_kept(k),
    ensures
        kept_lines(lines_spec(reflow(indent, gap, k))) == k,
    decreases k.len(),
{
    if k.len() == 0 {
        assert(kept_lines(lines_spec(reflow(indent, gap, k))) =~= k);
    } else {
        let x = spaces(indent) + k.first();
        assert(x.len() > 0);
        assert(no_nl(x)) by {
            assert forall|i: int| 0 <= i < x.len() implies x[i] != '\n' by {
                if i < indent {
                    assert(x[i] == ' ');
                } else {
                    assert(x[i] == k.first()[i - indent]);
                }
            }
        }
        lemma_trim_props(k.first());
        lemma_trim_indented(indent, k.first());
        if k.len() == 1 {
            lemma_lines_single(x);
            assert(kept_lines(seq![x]) =~= seq![k.first()]) by {
                assert(seq![x].drop_first() =~= Seq::<Seq<char>>::empty());
                assert(seq![trim_spec(x)] + kept_lines(Seq::<Seq<char>>::empty()) =~= seq![
                    trim_spec(x),
                ]);
            }
            assert(seq![k.first()] =~= k);
        } else {
            let kd = k.drop_first();
            assert forall|i: int| 0 <= i < kd.len() implies (#[trigger] kd[i]).len() > 0 && no_nl(
                kd[i],
            ) && trim_spec(kd[i]) == kd[i] by {
                assert(kd[i] == k[i + 1]);
            }
            let r = reflow(indent, gap, kd);
            lemma_reflow_nonempty(indent, gap, kd);
            assert(reflow(indent, gap, k) =~= x + seq!['\n'] + (newlines(gap) + r));
            lemma_lines_prepend(x, newlines(gap) + r);
            lemma_lines_nl_prefix(gap, r);
            lemma_reflow_roundtrip(indent, gap, kd);
            assert(lines_spec(reflow(indent, gap, k)) =~= seq![x] + (blank_lines(gap)
                + lines_spec(r)));
            lemma_kept_lines_app(seq![x], blank_lines(gap) + lines_spec(r));
            lemma_kept_lines_app(blank_lines(gap), lines_spec(r));
            lemma_kept_blanks(gap);
            assert(kept_lines(seq![x]) =~= seq![k.first()]) by {
                assert(seq![x].drop_first() =~= Seq::<Seq<char>>::empty());
                assert(seq![trim_spec(x)] + kept_lines(Seq::<Seq<char>>::empty()) =~= seq![
                    trim_spec(x),
                ]);
            }
            assert(kept_lines(lines_spec(reflow(indent, gap, k))) =~= seq![k.first()]
                + (Seq::<Seq<char>>::empty() + kd));
            assert(seq![k.first()] + (Seq::<Seq<char>>::empty() + kd) =~= k);
        }
    }
}

/// The structural stage of the pipeline is idempotent: re-splitting,
/// re-trimming and re-joining an already reflowed text is the identity.
pub proof fn lemma_format_spaced_idempotent(fmt: FmtConfig, md: bool, s: Seq<char>)
    ensures
        format_spaced_spec(fmt, md, format_spaced_spec(fmt, md, s)) == format_spaced_spec(
            fmt,
            md,
            s,
        ),
{
    if !(md && fmt.markdown_only_use_pangu) {
        let k = kept_lines(lines_spec(s));
        lemma_lines_no_nl_elems(s);
        lemma_kept_lines_wf(lines_spec(s));
        lemma_reflow_roundtrip(
            fmt.indent_spaces as nat,
            fmt.blank_lines_between_paragraphs as nat,
            k,
        );
    }
}

/// Idempotence of the whole pipeline: on any text whose formatted form the
/// spacing transform leaves fixed, formatting twice equals formatting once.
pub proof fn lemma_format_idempotent(fmt: FmtConfig, content: Seq<char>, path: Seq<char>)
    ensures
        spaced_of(format_spec(fmt, content, path)) == format_spec(fmt, content, path)
            ==> format_spec(fmt, format_spec(fmt, content, path), path) == format_spec(
            fmt,
            content,
            path,
        ),
{
    lemma_format_spaced_idempotent(fmt, is_md_path(path), spaced_of(content));
}

/// Markdown short-circuit: when the markdown-only flag is set, a markdown
/// file receives exactly the spacing transform, whatever the other options
/// are.
pub proof fn lemma_markdown_short_circuit(fmt: FmtConfig, content: Seq<char>, path: Seq<char>)
    ensures
        is_md_path(path) && fmt.markdown_only_use_pangu ==> format_spec(fmt, content, path)
            == spaced_of(content),
{
}

fn push_spaces(out: &mut String, n: usize)
    ensures
        final(out)@ == old(out)@ + spaces(n as nat),
{
    let mut j: usize = 0;
    proof {
        reveal_strlit(" ");
        assert(old(out)@ + spaces(0) =~= old(out)@);
    }
    while j < n
        invariant
            j <= n,
            out@ == old(out)@ + spaces(j as nat),
        decreases n - j,
    {
        out.append(" ");
        proof {
            reveal_strlit(" ");
            assert(old(out)@ + spaces((j + 1) as nat) =~= old(out)@ + spaces(j as nat) + " "@);
        }
        j = j + 1;
    }
}

fn push_newlines(out: &mut String, n: usize)
    ensures
        final(out)@ == old(out)@ + newlines(n as nat),
{
    let mut j: usize = 0;
    proof {
        reveal_strlit("\n");
        assert(old(out)@ + newlines(0) =~= old(out)@);
    }
    while j < n
        invariant
            j <= n,
            out@ == old(out)@ + newlines(j as nat),
        decreases n - j,
    {
        out.append("\n");
        proof {
            reveal_strlit("\n");
            assert(old(out)@ + newlines((j + 1) as nat) =~= old(out)@ + newlines(j as nat)
                + "\n"@);
        }
        j = j + 1;
    }
}

pub proof fn lemma_reflow_snoc(indent: nat, gap: nat, k: Seq<Seq<char>>)
    requires
        k.len() >= 2,
    ensures
        reflow(indent, gap, k) == reflow(indent, gap, k.drop_last()) + newlines(gap + 1) + spaces(
            indent,
        ) + k.last(),
    decreases k.len(),
{
    let sep = newlines(gap + 1);
    if k.len() == 2 {
        assert(k.drop_first().len() == 1);
        assert(k.drop_first().first() == k[1]);
        assert(k.drop_last().len() == 1);
        assert(k.drop_last().first() == k[0]);
        assert(reflow(indent, gap, k.drop_first()) == spaces(indent) + k[1]);
        assert(reflow(indent, gap, k.drop_last()) == spaces(indent) + k[0]);
        assert(spaces(indent) + k.first() + sep + (spaces(indent) + k[1]) =~= (spaces(indent)
            + k[0]) + sep + spaces(indent) + k.last());
    } else {
        let kd = k.drop_first();
        lemma_reflow_snoc(indent, gap, kd);
        assert(kd.drop_last() =~= k.drop_last().drop_first());
        assert(kd.last() == k.last());
        assert(k.drop_last().len() >= 2);
        assert(k.drop_last().first() == k.first());
        assert(reflow(indent, gap, k.drop_last()) == spaces(indent) + k.first() + sep + reflow(
            indent,
            gap,
            k.drop_last().drop_first(),
        ));
        assert(spaces(indent) + k.first() + sep + (reflow(indent, gap, k.drop_last().drop_first())
            + sep + spaces(indent) + k.last()) =~= (spaces(indent) + k.first() + sep + reflow(
            indent,
            gap,
            k.drop_last().drop_first(),
        )) + sep + spaces(indent) + k.last());
    }
}

/// The structural stage on already-spaced text: drop blank lines, trim and
/// indent the rest, and join them with the configured number of blank lines
/// between; markdown short-circuit returns the text unchanged.
pub fn format_spaced(fmt: &FmtConfig, spaced: &str, is_md: bool) -> (r: String)
    ensures
        r@ == format_spaced_spec(*fmt, is_md, spaced@),
{
    if is_md && fmt.markdown_only_use_pangu {
        return String::from_str(spaced);
    }
    let lines = split_lines(spaced);
    let ghost lsv = lines_spec(spaced@);
    let mut kept: Vec<String> = Vec::new();
    let ghost mut kv: Seq<Seq<char>> = Seq::empty();
    let mut i: usize = 0;
    proof {
        assert(lsv.skip(0) =~= lsv);
        assert(kv + kept_lines(lsv) =~= kept_lines(lsv));
    }
    while i < lines.len()
        invariant
            i <= lines.len(),
            lines@.len() == lsv.len(),
            forall|j: int| 0 <= j < lsv.len() ==> lines@[j]@ == lsv[j],
            kept@.len() == kv.len(),
            forall|j: int| 0 <= j < kv.len() ==> kept@[j]@ == kv[j],
            kept_lines(lsv) == kv + kept_lines(lsv.skip(i as int)),
        decreases lines.len() - i,
    {
        let t = trim_str(lines[i].as_str());
        proof {
            assert(lsv.skip(i as int).first() == lsv[i as int]);
            assert(lsv.skip(i as int).drop_first() =~= lsv.skip(i as int + 1));
        }
        if !t.as_str().is_empty() {
            proof {
                kv = kv.push(trim_spec(lsv[i as int]));
                assert(kv.drop_last() + (seq![trim_spec(lsv[i as int])] + kept_lines(
                    lsv.skip(i as int + 1),
                )) =~= kv + kept_lines(lsv.skip(i as int + 1)));
            }
            kept.push(t);
        }
        i = i + 1;
    }
    proof {
        assert(lsv.skip(lsv.len() as int) =~= Seq::<Seq<char>>::empty());
        assert(kv + kept_lines(lsv.skip(lsv.len() as int)) =~= kv);
        assert(kept_lines(lsv) == kv);
    }
    let indent = fmt.indent_spaces;
    let gap = fmt.blank_lines_between_paragraphs;
    let mut out = String::new();
    let mut i: usize = 0;
    while i < kept.len()
        invariant
            i <= kept.len(),
            kept@.len() == kv.len(),
            forall|j: int| 0 <= j < kv.len() ==> kept@[j]@ == kv[j],
            indent == fmt.indent_spaces,
            gap == fmt.blank_lines_between_paragraphs,
            i == 0 ==> out@ == Seq::<char>::empty(),
            i > 0 ==> out@ == reflow(indent as nat, gap as nat, kv.take(i as int)),
        decreases kept.len() - i,
    {
        let ghost before = out@;
        if i > 0 {
            push_newlines(&mut out, 1);
            push_newlines(&mut out, gap);
        }
        push_spaces(&mut out, indent);
        out.append(kept[i].as_str());
        proof {
            if i == 0 {
                assert(kv.take(1).len() == 1);
                assert(kv.take(1).first() == kv[0]);
                assert(out@ =~= spaces(indent as nat) + kv.take(1).first());
            } else {
                lemma_reflow_snoc(indent as nat, gap as nat, kv.take(i as int + 1));
                assert(kv.take(i as int + 1).drop_last() =~= kv.take(i as int));
                assert(kv.take(i as int + 1).last() == kv[i as int]);
                assert(newlines((gap + 1) as nat) =~= newlines(1) + newlines(gap as nat));
                assert(out@ =~= before + newlines(1) + newlines(gap as nat) + spaces(
                    indent as nat,
                ) + kv[i as int]);
                assert(out@ =~= reflow(indent as nat, gap as nat, kv.take(i as int)) + newlines(
                    (gap + 1) as nat,
                ) + spaces(indent as nat) + kv.take(i as int + 1).last());
            }
        }
        i = i + 1;
    }
    proof {
        assert(kv.take(kv.len() as int) =~= kv);
        if kv.len() == 0 {
            assert(out@ =~= reflow(indent as nat, gap as nat, kv));
        }
    }
    out
}

/// The whole pipeline: apply the spacing transform, then, unless a markdown
/// file short-circuits, the trim / indent / blank-line rules.
pub fn formatter(config: &NovelSagaConfig, content: &str, path: &str) -> (r: String)
    ensures
        r@ == format_spec(config.fmt, content@, path@),
{
    let is_md = is_markdown_path(path);
    let spaced = spacing(content);
    format_spaced(&config.fmt, spaced.as_str(), is_md)
}

} // verus!
