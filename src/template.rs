//! The template that stands in for a missing backing document: a comment
//! that shows, line by line, an example document.
use vstd::prelude::*;
use crate::service::{Service, entries_of};

verus! {

/// `s` with each of its lines, which end at `'\n'`, turned into a comment:
/// `"# "` before it and `'\n'` after it. `at_line_start` says whether `s`
/// starts a line.
pub open spec fn commented_from(s: Seq<char>, at_line_start: bool) -> Seq<char>
    decreases s.len(),
{
    if s.len() == 0 {
        if at_line_start {
            Seq::empty()
        } else {
            seq!['\n']
        }
    } else {
        let lead = if at_line_start {
            seq!['#', ' ']
        } else {
            Seq::empty()
        };
        if s[0] == '\n' {
            lead + seq!['\n'] + commented_from(s.drop_first(), true)
        } else {
            lead + seq![s[0]] + commented_from(s.drop_first(), false)
        }
    }
}

/// The first line of a template.
pub open spec fn template_header() -> Seq<char> {
    "# This is an automatically generated desired state template\n"@
}

proof fn lemma_commented_segment(seg: Seq<char>, tail: Seq<char>)
    requires
        forall|k: int| 0 <= k < seg.len() ==> seg[k] != '\n',
    ensures
        commented_from(seg + tail, false) == seg + commented_from(tail, false),
    decreases seg.len(),
{
    if seg.len() > 0 {
        lemma_commented_segment(seg.drop_first(), tail);
        assert((seg + tail).drop_first() =~= seg.drop_first() + tail);
        assert(seg =~= seq![seg[0]] + seg.drop_first());
        assert(seq![seg[0]] + (seg.drop_first() + commented_from(tail, false)) =~= seg + commented_from(
            tail,
            false,
        ));
    } else {
        assert(seg + tail =~= tail);
        assert(seg + commented_from(tail, false) =~= commented_from(tail, false));
    }
}

proof fn lemma_commented_line_start(t: Seq<char>)
    requires
        t.len() > 0,
    ensures
        commented_from(t, true) == seq!['#', ' '] + commented_from(t, false),
{
    let e = Seq::<char>::empty();
    assert(e + seq!['\n'] =~= seq!['\n']);
    assert(e + seq![t[0]] =~= seq![t[0]]);
    if t[0] == '\n' {
        assert(seq!['#', ' '] + seq!['\n'] + commented_from(t.drop_first(), true) =~= seq!['#', ' '] + (
        seq!['\n'] + commented_from(t.drop_first(), true)));
    } else {
        assert(seq!['#', ' '] + seq![t[0]] + commented_from(t.drop_first(), false) =~= seq!['#', ' '] + (
        seq![t[0]] + commented_from(t.drop_first(), false)));
    }
}

/// Each line of `text`, which end at `'\n'`, made a comment.
pub fn comment_out(text: &str) -> (r: String)
    ensures
        r@ == commented_from(text@, true),
{
    let n = text.unicode_len();
    let mut out = String::new();
    let mut line_start: usize = 0;
    let mut i: usize = 0;
    proof {
        reveal_strlit("# ");
        reveal_strlit("\n");
        assert(text@.skip(0) =~= text@);
        assert(out@ + text@ =~= text@);
        assert(Seq::<char>::empty() + commented_from(text@, true) =~= commented_from(text@, true));
    }
    while i < n
        invariant
            n == text@.len(),
            line_start <= i <= n,
            forall|k: int| line_start <= k < i ==> text@[k] != '\n',
            commented_from(text@, true) == out@ + commented_from(text@.skip(line_start as int), true),
        decreases n - i,
    {
        if text.get_char(i) == '\n' {
            let seg = text.substring_char(line_start, i);
            let ghost before = out@;
            let ghost rest = text@.skip(i + 1);
            proof {
                let t = text@.skip(line_start as int);
                assert(t =~= seg@ + (seq!['\n'] + rest));
                lemma_commented_line_start(t);
                lemma_commented_segment(seg@, seq!['\n'] + rest);
                assert((seq!['\n'] + rest).drop_first() =~= rest);
                let e = Seq::<char>::empty();
                assert(e + seq!['\n'] =~= seq!['\n']);
            }
            out.append("# ");
            out.append(seg);
            out.append("\n");
            proof {
                reveal_strlit("# ");
                reveal_strlit("\n");
                assert(out@ =~= before + seq!['#', ' '] + seg@ + seq!['\n']);
                assert(out@ + commented_from(rest, true) =~= before + (seq!['#', ' '] + (seg@ + (seq!['\n']
                    + commented_from(rest, true)))));
            }
            line_start = i + 1;
        }
        i = i + 1;
    }
    if line_start < n {
        let seg = text.substring_char(line_start, n);
        let ghost before = out@;
        proof {
            let t = text@.skip(line_start as int);
            assert(t =~= seg@ + Seq::<char>::empty());
            lemma_commented_line_start(t);
            lemma_commented_segment(seg@, Seq::<char>::empty());
        }
        out.append("# ");
        out.append(seg);
        out.append("\n");
        proof {
            reveal_strlit("# ");
            reveal_strlit("\n");
            assert(out@ =~= before + (seq!['#', ' '] + (seg@ + seq!['\n'])));
        }
    } else {
        proof {
            assert(text@.skip(line_start as int) =~= Seq::<char>::empty());
            assert(out@ + Seq::<char>::empty() =~= out@);
        }
    }
    out
}

/// The template for a missing document, from the text of the example
/// document that it shows.
pub fn template_text(example: &str) -> (r: String)
    ensures
        r@ == template_header() + commented_from(example@, true),
{
    let mut r = "# This is an automatically generated desired state template\n".to_string();
    let body = comment_out(example);
    r.append(body.as_str());
    r
}

/// The services of the example document that a template shows.
pub fn template_services() -> (r: Vec<Service>)
    ensures
        entries_of(r@) == seq![
            ("example-service"@, "^1.2.3"@),
            ("second-example-service"@, ">0.1.0"@),
        ],
{
    let r = vec![
        Service::new("example-service".to_string(), "^1.2.3".to_string()),
        Service::new("second-example-service".to_string(), ">0.1.0".to_string()),
    ];
    assert(entries_of(r@) =~= seq![
        ("example-service"@, "^1.2.3"@),
        ("second-example-service"@, ">0.1.0"@),
    ]);
    r
}

/// What to write so that the backing document exists: nothing where it is
/// present, else the template that shows `example`.
pub fn ensure_exists(present: bool, example: &str) -> (r: Option<String>)
    ensures
        present ==> r is None,
        !present ==> (r matches Some(t) && t@ == template_header() + commented_from(example@, true)),
{
    if present {
        None
    } else {
        Some(template_text(example))
    }
}

} // verus!
