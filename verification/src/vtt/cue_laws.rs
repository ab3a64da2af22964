use vstd::prelude::*;

use crate::text::is_digit;

use super::cue_text::{
    add_node, close_all, close_node, end_tag, find_blank, tag_name, tag_of, tag_token, tree_run, tree_step, OpenV, Tag,
    TokenV, TreeV,
};
use super::scan::{find_in, is_ws, skip_ws, trim_ws_end};
use super::setting_laws::lemma_find_in_exact;

verus! {

/// The end tags that close the open tags `st`, innermost first.
pub open spec fn closers(st: Seq<OpenV>) -> Seq<TokenV>
    decreases st.len(),
{
    if st.len() == 0 {
        Seq::empty()
    } else {
        seq![TokenV::EndTag(st.last().0)] + closers(st.drop_last())
    }
}

/// Applying the tokens `toks` one after another to the tree `t`.
pub open spec fn run_from(t: TreeV, toks: Seq<TokenV>) -> TreeV
    decreases toks.len(),
{
    if toks.len() == 0 {
        t
    } else {
        run_from(tree_step(t, toks[0]), toks.drop_first())
    }
}

/// The end tags that close open tags depend only on the names of those tags.
proof fn lemma_closers_names(a: Seq<OpenV>, b: Seq<OpenV>)
    requires
        a.len() == b.len(),
        forall|i: int| 0 <= i < a.len() ==> (#[trigger] a[i]).0 == b[i].0,
    ensures
        closers(a) == closers(b),
    decreases a.len(),
{
    if a.len() > 0 {
        assert forall|i: int| 0 <= i < a.drop_last().len() implies (#[trigger] a.drop_last()[i]).0 == b.drop_last()[i].0 by {
            assert(a.drop_last()[i] == a[i] && b.drop_last()[i] == b[i]);
        }
        lemma_closers_names(a.drop_last(), b.drop_last());
    }
}

/// An end tag naming the innermost open tag closes just that tag into its parent.
proof fn lemma_end_innermost(t: TreeV)
    requires
        t.stack.len() > 0,
    ensures
        end_tag(t, t.stack.last().0) == add_node(
            TreeV { root: t.root, stack: t.stack.drop_last() },
            close_node(t.stack.last()),
        ),
{
    let n = t.stack.len() as int;
    assert(t.stack.subrange(0, n - 1) =~= t.stack.drop_last());
}

/// Closing the open tags of `t` with end tags, innermost first, leaves no tag open and
/// gives the tree that closing them all at the end gives.
proof fn lemma_closers_close_all(t: TreeV)
    ensures
        run_from(t, closers(t.stack)).stack.len() == 0,
        run_from(t, closers(t.stack)).root == close_all(t),
    decreases t.stack.len(),
{
    if t.stack.len() > 0 {
        let c = closers(t.stack);
        let t2 = add_node(TreeV { root: t.root, stack: t.stack.drop_last() }, close_node(t.stack.last()));
        lemma_end_innermost(t);
        assert(c[0] == TokenV::EndTag(t.stack.last().0));
        assert(c.drop_first() =~= closers(t.stack.drop_last()));
        assert(tree_step(t, c[0]) == t2);
        assert(t2.stack.len() == t.stack.drop_last().len());
        assert forall|i: int| 0 <= i < t2.stack.len() implies (#[trigger] t2.stack[i]).0 == t.stack.drop_last()[i].0 by {}
        lemma_closers_names(t2.stack, t.stack.drop_last());
        lemma_closers_close_all(t2);
    }
}

/// Applying one more token at the end.
proof fn lemma_run_from_push(t: TreeV, toks: Seq<TokenV>, x: TokenV)
    ensures
        run_from(t, toks.push(x)) == tree_step(run_from(t, toks), x),
    decreases toks.len(),
{
    if toks.len() == 0 {
        assert(toks.push(x).drop_first() =~= Seq::<TokenV>::empty());
        assert(toks.push(x)[0] == x);
        assert(run_from(tree_step(t, x), Seq::<TokenV>::empty()) == tree_step(t, x));
    } else {
        assert(toks.push(x).drop_first() =~= toks.drop_first().push(x));
        assert(toks.push(x)[0] == toks[0]);
        lemma_run_from_push(tree_step(t, toks[0]), toks.drop_first(), x);
    }
}

/// The tree after tokens followed by more tokens is the tree after the first ones, with
/// the others applied to it.
proof fn lemma_tree_run_append(toks: Seq<TokenV>, ex: Seq<TokenV>, k: int)
    requires
        0 <= k <= ex.len(),
    ensures
        tree_run(toks + ex, toks.len() + k) == run_from(tree_run(toks, toks.len() as int), ex.subrange(0, k)),
    decreases k,
{
    let full = toks + ex;
    if k == 0 {
        lemma_tree_run_prefix(toks, ex, toks.len() as int);
        assert(ex.subrange(0, 0) =~= Seq::<TokenV>::empty());
    } else {
        lemma_tree_run_append(toks, ex, k - 1);
        assert(ex.subrange(0, k) =~= ex.subrange(0, k - 1).push(ex[k - 1]));
        lemma_run_from_push(tree_run(toks, toks.len() as int), ex.subrange(0, k - 1), ex[k - 1]);
        assert(full[toks.len() + k - 1] == ex[k - 1]);
    }
}

/// The tree after the first tokens does not depend on what follows them.
proof fn lemma_tree_run_prefix(toks: Seq<TokenV>, ex: Seq<TokenV>, i: int)
    requires
        0 <= i <= toks.len(),
    ensures
        tree_run(toks + ex, i) == tree_run(toks, i),
    decreases i,
{
    if i > 0 {
        lemma_tree_run_prefix(toks, ex, i - 1);
        assert((toks + ex)[i - 1] == toks[i - 1]);
    }
}

/// Tags left open at the end of cue text are closed into the tag open around them, not
/// into the root: the tree of the tokens `toks` is the tree of `toks` followed by the end
/// tags of the tags left open, innermost first, which leave no tag open.
pub proof fn law_open_tags_close_into_parent(toks: Seq<TokenV>)
    ensures
        ({
            let t = tree_run(toks, toks.len() as int);
            let full = toks + closers(t.stack);
            &&& tree_run(full, full.len() as int).stack.len() == 0
            &&& close_all(t) == tree_run(full, full.len() as int).root
        }),
{
    let t = tree_run(toks, toks.len() as int);
    let c = closers(t.stack);
    lemma_tree_run_append(toks, c, c.len() as int);
    assert(c.subrange(0, c.len() as int) =~= c);
    lemma_closers_close_all(t);
}

/// Text as an annotation can be written: empty, or starting and ending with no white space.
pub open spec fn trimmed(a: Seq<char>) -> bool {
    a.len() > 0 ==> !is_ws(a[0]) && !is_ws(a[a.len() - 1])
}

/// The annotation a start tag carries for the text `a` after its name.
pub open spec fn annotation_of(a: Seq<char>) -> Option<Seq<char>> {
    if a.len() == 0 {
        None
    } else {
        Some(a)
    }
}

/// The tag names, letter by letter: none is empty, and none holds `.`, `/`, a digit, a
/// space or a tab.
proof fn lemma_tag_names(t: Tag)
    ensures
        tag_name(t).len() > 0,
        tag_of(tag_name(t)) == Some(t),
        !is_digit(tag_name(t)[0]),
        tag_name(t)[0] != '/',
        forall|k: int| 0 <= k < tag_name(t).len() ==> #[trigger] tag_name(t)[k] != '.' && tag_name(t)[k] != ' '
            && tag_name(t)[k] != '\t',
{
    reveal_strlit("b");
    reveal_strlit("i");
    reveal_strlit("u");
    reveal_strlit("c");
    reveal_strlit("ruby");
    reveal_strlit("rt");
    reveal_strlit("v");
    reveal_strlit("lang");
    let names = seq!["b"@, "i"@, "u"@, "c"@, "ruby"@, "rt"@, "v"@, "lang"@];
    assert forall|i: int, j: int| 0 <= i < j < 8 implies #[trigger] names[i] != #[trigger] names[j] by {
        if names[i].len() == names[j].len() {
            if names[i].len() == 1 || i == 4 || i == 5 {
                assert(names[i][0] != names[j][0] || names[i][1] != names[j][1]);
            }
        }
    }
    assert(names[0] != names[1] && names[0] != names[2] && names[0] != names[3] && names[0] != names[6]);
    assert(names[1] != names[2] && names[1] != names[3] && names[1] != names[6]);
    assert(names[2] != names[3] && names[2] != names[6] && names[3] != names[6]);
    assert(names[4] != names[5]);
}

/// The first space or tab from `i` on, when none comes before `j` and `s[j]` is one, is at
/// `j`.
proof fn lemma_find_blank_exact(s: Seq<char>, i: int, j: int, hi: int)
    requires
        i <= j <= hi,
        forall|k: int| i <= k < j ==> #[trigger] s[k] != ' ' && s[k] != '\t',
        j < hi ==> s[j] == ' ' || s[j] == '\t',
    ensures
        find_blank(s, i, hi) == j,
    decreases j - i,
{
    if i < j {
        lemma_find_blank_exact(s, i + 1, j, hi);
    }
}

/// The annotation after a space at `sp` reads back as written.
proof fn lemma_annotation(x: Seq<char>, sp: int, a: Seq<char>)
    requires
        0 <= sp,
        x.len() == sp + 1 + a.len(),
        x.subrange(sp + 1, x.len() as int) == a,
        trimmed(a),
    ensures
        ({
            let lo = skip_ws(x, sp + 1, x.len() as int);
            let hi = trim_ws_end(x, lo, x.len() as int);
            &&& lo == sp + 1
            &&& hi == x.len()
            &&& (if lo == hi { None } else { Some(x.subrange(lo, hi)) }) == annotation_of(a)
        }),
{
    if a.len() > 0 {
        assert(x[sp + 1] == a[0]);
        assert(x[x.len() - 1] == a[a.len() - 1]);
    }
}

/// A start tag written as a tag name, optionally `.` and classes, then a space and an
/// annotation, reads as that tag with those classes and that annotation: the classes and
/// the name are taken only from the text before the first space, so a `.` in the
/// annotation changes neither.
pub proof fn law_start_tag(t: Tag, classes: Option<Seq<char>>, a: Seq<char>)
    requires
        classes matches Some(c) ==> forall|k: int| 0 <= k < c.len() ==> #[trigger] c[k] != ' ' && c[k] != '\t',
        trimmed(a),
    ensures
        ({
            let head = match classes {
                Some(c) => tag_name(t) + seq!['.'] + c,
                None => tag_name(t),
            };
            let x = head + seq![' '] + a;
            tag_token(x, 0, x.len() as int) == Some(
                TokenV::StartTag(
                    t,
                    match classes {
                        Some(c) => c,
                        None => Seq::empty(),
                    },
                    annotation_of(a),
                ),
            )
        }),
{
    lemma_tag_names(t);
    let name = tag_name(t);
    let n = name.len() as int;
    let head = match classes {
        Some(c) => name + seq!['.'] + c,
        None => name,
    };
    let x = head + seq![' '] + a;
    let sp = head.len() as int;
    assert(x[0] == name[0]);
    assert forall|k: int| 0 <= k < sp implies #[trigger] x[k] != ' ' && x[k] != '\t' by {
        assert(x[k] == head[k]);
        if k < n {
            assert(head[k] == name[k]);
        } else if k > n {
            assert(head[k] == classes->Some_0[k - n - 1]);
        }
    }
    assert(x[sp] == ' ');
    lemma_find_blank_exact(x, 0, sp, x.len() as int);
    assert forall|k: int| 0 <= k < n implies #[trigger] x[k] != '.' by {
        assert(x[k] == head[k] && head[k] == name[k]);
    }
    if classes is Some {
        assert(x[n] == '.');
        assert(x.subrange(n + 1, sp) =~= classes->Some_0);
    }
    lemma_find_in_exact(x, 0, n, sp, '.');
    assert(x.subrange(0, n) =~= name);
    assert(x.subrange(sp + 1, x.len() as int) =~= a);
    lemma_annotation(x, sp, a);
}

/// Whatever follows the first space of a start tag, the tag name and the classes are
/// those of the text before it alone.
pub proof fn law_start_tag_head(w: Seq<char>, a: Seq<char>)
    requires
        w.len() > 0,
        w[0] != '/',
        !is_digit(w[0]),
        forall|k: int| 0 <= k < w.len() ==> #[trigger] w[k] != ' ' && w[k] != '\t',
    ensures
        ({
            let x = w + seq![' '] + a;
            match (tag_token(x, 0, x.len() as int), tag_token(w, 0, w.len() as int)) {
                (Some(TokenV::StartTag(t1, c1, _)), Some(TokenV::StartTag(t2, c2, n2))) => t1 == t2 && c1 == c2
                    && n2 is None,
                (None, None) => true,
                _ => false,
            }
        }),
{
    let x = w + seq![' '] + a;
    let m = w.len() as int;
    assert forall|k: int| 0 <= k < m implies #[trigger] x[k] != ' ' && x[k] != '\t' by {
        assert(x[k] == w[k]);
    }
    assert(x[m] == ' ');
    lemma_find_blank_exact(x, 0, m, x.len() as int);
    lemma_find_blank_exact(w, 0, m, m);
    assert(x[0] == w[0]);
    crate::vtt::cue_text::lemma_find_in(w, 0, m, '.');
    let dw = find_in(w, 0, m, '.');
    assert forall|k: int| 0 <= k < dw implies #[trigger] x[k] != '.' by {
        assert(x[k] == w[k]);
        if w[k] == '.' {
            lemma_find_in_first(w, 0, m, '.', k);
        }
    }
    if dw < m {
        assert(x[dw] == w[dw]);
    }
    lemma_find_in_exact(x, 0, dw, m, '.');
    assert(x.subrange(0, dw) =~= w.subrange(0, dw));
    if dw < m {
        assert(x.subrange(dw + 1, m) =~= w.subrange(dw + 1, m));
    }
}

/// Nothing before the first `c` found from `i` on is `c`.
proof fn lemma_find_in_first(s: Seq<char>, i: int, hi: int, c: char, k: int)
    requires
        i <= k < find_in(s, i, hi, c),
    ensures
        s[k] != c,
    decreases k - i,
{
    if i < k {
        lemma_find_in_first(s, i + 1, hi, c, k);
    }
}

} // verus!
