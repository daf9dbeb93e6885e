//! The front matter of a written mirror: the `---` framing that template
//! writes, and that the header reader finds again.
use crate::mirror_io::{front_matter_of, lemma_no_occurrence_across, lemma_occurrence_inside};
use crate::mirror_types::MirrorBody;
use crate::template::{body_markdown, mirror_file_text};
use crate::text::{first_occurrence, lemma_first_is_choice, occurs_at, occurs_in};
use vstd::prelude::*;

verus! {

proof fn lemma_dash_seq()
    ensures
        "---"@ == seq!['-', '-', '-'],
        "---\n"@ == seq!['-', '-', '-', '\n'],
        "\n---"@ == seq!['\n', '-', '-', '-'],
        "\n"@ == seq!['\n'],
{
    reveal_strlit("---");
    reveal_strlit("---\n");
    reveal_strlit("\n---");
    reveal_strlit("\n");
    assert("---"@ =~= seq!['-', '-', '-']);
    assert("---\n"@ =~= seq!['-', '-', '-', '\n']);
    assert("\n---"@ =~= seq!['\n', '-', '-', '-']);
    assert("\n"@ =~= seq!['\n']);
}

proof fn lemma_second_dash(y: Seq<char>, tail: Seq<char>)
    requires
        !occurs_in(y, seq!['-', '-', '-']),
    ensures
        first_occurrence(seq!['\n'] + y + seq!['\n', '-', '-', '-'] + tail, seq!['-', '-', '-']) == Some(y.len() + 2int),
{
    let dash = seq!['-', '-', '-'];
    let rest = seq!['\n'] + y + seq!['\n', '-', '-', '-'] + tail;
    let len = y.len() as int;
    assert(rest[0] == '\n');
    assert(rest[len + 1] == '\n');
    assert(rest.subrange(1, 1 + len) =~= y);
    assert(rest.subrange(len + 2, len + 5) =~= dash);
    assert(forall|q: int| 0 <= q < dash.len() ==> #[trigger] dash[q] != '\n');
    assert forall|j: int| 0 <= j < len + 2 implies !occurs_at(rest, dash, j) by {
        if j == 0 {
            lemma_no_occurrence_across(rest, dash, j, 0);
        } else if j + 2 <= len {
            if occurs_at(rest, dash, j) {
                lemma_occurrence_inside(rest, y, 1, dash, j);
            }
        } else {
            lemma_no_occurrence_across(rest, dash, j, len + 1);
        }
    }
    lemma_first_is_choice(rest, dash, len + 2);
}

proof fn lemma_framed_layout(y: Seq<char>, tail: Seq<char>)
    ensures
        ({
            let c = seq!['-', '-', '-', '\n'] + y + seq!['\n', '-', '-', '-'] + tail;
            &&& c.skip(3) == seq!['\n'] + y + seq!['\n', '-', '-', '-'] + tail
            &&& c.subrange(3, 3 + y.len() as int + 2) == seq!['\n'] + y + seq!['\n']
        }),
{
    let dash = seq!['-', '-', '-'];
    let n = seq!['\n'];
    let d = seq!['\n', '-', '-', '-'];
    let r = n + y + d + tail;
    let len = y.len() as int;
    assert(seq!['-', '-', '-', '\n'] =~= dash + n);
    vstd::seq_lib::lemma_concat_associative(dash, n, y);
    vstd::seq_lib::lemma_concat_associative(dash, n + y, d);
    vstd::seq_lib::lemma_concat_associative(dash, n + y + d, tail);
    let c = dash + r;
    assert(c == seq!['-', '-', '-', '\n'] + y + seq!['\n', '-', '-', '-'] + tail);
    assert(c.subrange(0, 3) =~= dash);
    assert(c.skip(3) =~= r);
    let w = n + y + n;
    assert(r.len() == len + 5 + tail.len());
    assert forall|k: int| 0 <= k < len + 2 implies #[trigger] r[k] == w[k] by {
        if k == 0 {
        } else if k <= len {
            assert(r[k] == y[k - 1]);
        } else {
            assert(r[k] == d[0]);
        }
    }
    assert(r.subrange(0, len + 2) =~= w);
    assert(c.subrange(3, 3 + len + 2) =~= r.subrange(0, len + 2));
}

proof fn lemma_first_dash(c: Seq<char>)
    requires
        c.len() >= 3,
        c.subrange(0, 3) == seq!['-', '-', '-'],
    ensures
        first_occurrence(c, seq!['-', '-', '-']) == Some(0int),
{
    lemma_first_is_choice(c, seq!['-', '-', '-'], 0);
}

proof fn lemma_front_matter_at(c: Seq<char>, k: int)
    requires
        first_occurrence(c, "---"@) == Some(0int),
        first_occurrence(c.skip(3), "---"@) == Some(k),
    ensures
        front_matter_of(c) == Some(c.subrange(3, 3 + k)),
{
}

/// Front matter framed by `---` lines, followed by anything, reads back as
/// the framed text when that text holds no `---`.
proof fn lemma_framed_front_matter(header_yaml: Seq<char>, tail: Seq<char>)
    requires
        !occurs_in(header_yaml, "---"@),
    ensures
        front_matter_of("---\n"@ + header_yaml + "\n---"@ + tail) == Some("\n"@ + header_yaml + "\n"@),
{
    lemma_dash_seq();
    let c = seq!['-', '-', '-', '\n'] + header_yaml + seq!['\n', '-', '-', '-'] + tail;
    assert(c.subrange(0, 3) =~= seq!['-', '-', '-']);
    lemma_first_dash(c);
    lemma_framed_layout(header_yaml, tail);
    lemma_second_dash(header_yaml, tail);
    lemma_front_matter_at(c, header_yaml.len() as int + 2);
}

/// The header of a written mirror reads back: when the header's YAML text
/// holds no `---`, the front matter found in the assembled mirror is that
/// text between the newlines that frame it.
pub proof fn law_front_matter_round_trip(header_yaml: Seq<char>, body: MirrorBody)
    requires
        !occurs_in(header_yaml, "---"@),
    ensures
        front_matter_of(mirror_file_text(header_yaml, body)) == Some("\n"@ + header_yaml + "\n"@),
{
    let head = "---\n"@ + header_yaml + "\n---"@;
    let md = body_markdown(body);
    vstd::seq_lib::lemma_concat_associative(head, "\n\n"@, md);
    vstd::seq_lib::lemma_concat_associative(head, "\n\n"@ + md, "\n"@);
    lemma_framed_front_matter(header_yaml, "\n\n"@ + md + "\n"@);
}

} // verus!
