use vstd::prelude::*;

use crate::input::{Content, ContentValue, ContentValueMetadata, NodeView, ValueView, node_view,
    nodes_view, lemma_nodes_view, values_view};
use crate::project::lemma_nodes_view_push;
use crate::sortval::{sort_values, sort_content_values};
use crate::style::{Style, Span, SpanView, Line, spans_view, lines_view};
use crate::wrap::{wrap_of, wrap_text, texts_view};

verus! {

/// How the renderer is configured: the filter mode, the three colors a host
/// supplies, the wrap width, and the per-node line cap.
#[derive(Clone, Copy)]
pub struct RenderOptions {
    /// Keep only primary-content values when set; decorative and secondary
    /// values are dropped.
    pub primary_only: bool,
    /// The emphasis color: main primary content and the truncation marker.
    pub main_content_color: crate::style::Color,
    /// The body text color.
    pub text_color: crate::style::Color,
    /// The background color behind every span.
    pub background_color: crate::style::Color,
    /// The column width lines are packed and wrapped to.
    pub wrap_width: usize,
    /// The most lines one node's own values may produce before truncation.
    pub line_cap: usize,
}

/// Whether a value is shown at all: ids and action links never render as
/// body text, and in primary-only mode non-primary values are dropped too.
pub open spec fn keep_value(v: ValueView, primary_only: bool) -> bool {
    &&& !v.meta.is_id
    &&& !v.meta.is_action_link
    &&& (primary_only ==> v.meta.is_primary_content)
}

/// The values of `s` that render, in the order they arrived in.
pub open spec fn kept_values(s: Seq<ValueView>, primary_only: bool) -> Seq<ValueView>
    decreases s,
{
    if s.len() == 0 {
        Seq::empty()
    } else {
        let rest = kept_values(s.drop_last(), primary_only);
        if keep_value(s.last(), primary_only) {
            rest.push(s.last())
        } else {
            rest
        }
    }
}

/// The style one value renders in: emphasis color for main primary content,
/// body color otherwise; titles bold; urls underlined.
pub open spec fn style_for(m: ContentValueMetadata, o: RenderOptions) -> Style {
    Style {
        fg: if m.is_main_primary_content {
            o.main_content_color
        } else {
            o.text_color
        },
        bg: o.background_color,
        bold: m.is_title,
        underlined: m.is_url,
    }
}

/// The style of the single-space separators between packed values.
pub open spec fn spacer_style(o: RenderOptions) -> Style {
    Style { fg: o.text_color, bg: o.background_color, bold: false, underlined: false }
}

/// The style of the truncation marker line.
pub open spec fn marker_style(o: RenderOptions) -> Style {
    Style { fg: o.main_content_color, bg: o.background_color, bold: true, underlined: false }
}

/// The single marker line appended when a node's lines are truncated.
pub open spec fn marker_line(o: RenderOptions) -> Seq<SpanView> {
    seq![SpanView { content: "(truncated)"@, style: marker_style(o) }]
}

/// The text length a run of spans occupies.
pub open spec fn spans_len(s: Seq<SpanView>) -> nat
    decreases s,
{
    if s.len() == 0 {
        0
    } else {
        spans_len(s.drop_last()) + s.last().content.len()
    }
}

/// One line per wrapped segment, all in one style.
pub open spec fn wrap_block(segs: Seq<Seq<char>>, sty: Style) -> Seq<Seq<SpanView>> {
    segs.map_values(|seg: Seq<char>| seq![SpanView { content: seg, style: sty }])
}

/// The running state of the greedy packer: finished lines, and the line
/// being accumulated.
pub struct PackState {
    pub lines: Seq<Seq<SpanView>>,
    pub cur: Seq<SpanView>,
}

/// The packer before any value has been placed.
pub open spec fn pack_init() -> PackState {
    PackState { lines: Seq::empty(), cur: Seq::empty() }
}

/// Where one value goes: a value longer than the wrap width is flushed to
/// its own wrapped block regardless of occupancy; a shorter one joins the
/// current line (after a single-space separator) if it still fits under the
/// width, else opens a new line.
pub open spec fn pack_step(st: PackState, v: ValueView, o: RenderOptions) -> PackState {
    let sty = style_for(v.meta, o);
    if v.value.len() > o.wrap_width {
        let flushed = if st.cur.len() > 0 {
            st.lines.push(st.cur)
        } else {
            st.lines
        };
        PackState {
            lines: flushed + wrap_block(wrap_of(v.value, o.wrap_width as nat), sty),
            cur: Seq::empty(),
        }
    } else if st.cur.len() == 0 {
        PackState { lines: st.lines, cur: seq![SpanView { content: v.value, style: sty }] }
    } else if spans_len(st.cur) + 1 + v.value.len() <= o.wrap_width {
        PackState {
            lines: st.lines,
            cur: st.cur + seq![
                SpanView { content: " "@, style: spacer_style(o) },
                SpanView { content: v.value, style: sty },
            ],
        }
    } else {
        PackState {
            lines: st.lines.push(st.cur),
            cur: seq![SpanView { content: v.value, style: sty }],
        }
    }
}

/// The packer state after the first `i` values of `vs`.
pub open spec fn pack_prefix(vs: Seq<ValueView>, o: RenderOptions, i: int) -> PackState
    decreases i,
{
    if i <= 0 {
        pack_init()
    } else {
        pack_step(pack_prefix(vs, o, i - 1), vs[i - 1], o)
    }
}

/// The packer's output: the finished lines, with a started line flushed.
pub open spec fn pack_flush(st: PackState) -> Seq<Seq<SpanView>> {
    if st.cur.len() > 0 {
        st.lines.push(st.cur)
    } else {
        st.lines
    }
}

/// The lines a node's own values produce: filter, sort into display order,
/// pack greedily.
pub open spec fn node_own_lines(n: NodeView, o: RenderOptions) -> Seq<Seq<SpanView>> {
    let sorted = sort_values(kept_values(n.values, o.primary_only));
    pack_flush(pack_prefix(sorted, o, sorted.len() as int))
}

/// A node's own lines, truncated to the cap with a marker line appended
/// when lines were dropped.
pub open spec fn node_own_lines_capped(n: NodeView, o: RenderOptions) -> Seq<Seq<SpanView>> {
    let own = node_own_lines(n, o);
    if own.len() > o.line_cap {
        own.subrange(0, o.line_cap as int).push(marker_line(o))
    } else {
        own
    }
}

/// All lines a node renders to: its own capped lines, then every child's
/// lines in tree order.
pub open spec fn spec_node_lines(n: NodeView, o: RenderOptions) -> Seq<Seq<SpanView>>
    decreases n,
{
    node_own_lines_capped(n, o) + spec_node_lines_seq(n.children, o)
}

/// The concatenated lines of a sequence of subtrees, in order.
pub open spec fn spec_node_lines_seq(s: Seq<NodeView>, o: RenderOptions) -> Seq<Seq<SpanView>>
    decreases s,
{
    if s.len() == 0 {
        Seq::empty()
    } else {
        spec_node_lines_seq(s.drop_last(), o) + spec_node_lines(s.last(), o)
    }
}

proof fn lemma_spans_len_push(s: Seq<SpanView>, x: SpanView)
    ensures
        spans_len(s.push(x)) == spans_len(s) + x.content.len(),
{
    assert(s.push(x).drop_last() =~= s);
    assert(s.push(x).last() == x);
}

proof fn lemma_node_lines_seq_push(t: Seq<NodeView>, x: NodeView, o: RenderOptions)
    ensures
        spec_node_lines_seq(t.push(x), o) == spec_node_lines_seq(t, o) + spec_node_lines(x, o),
{
    assert(t.push(x).drop_last() =~= t);
    assert(t.push(x).last() == x);
}

/// The exec mirror of [`style_for`].
fn style_for_exec(m: &ContentValueMetadata, o: &RenderOptions) -> (r: Style)
    ensures
        r == style_for(*m, *o),
{
    Style {
        fg: if m.is_main_primary_content {
            o.main_content_color
        } else {
            o.text_color
        },
        bg: o.background_color,
        bold: m.is_title,
        underlined: m.is_url,
    }
}

impl Content {
    /// Append to `result` the display lines of this subtree: the node's own
    /// values filtered by mode, sorted into display order, greedily packed
    /// at the wrap width, truncated to the line cap (with a marker), then
    /// every child's lines in tree order.
    #[verifier::loop_isolation(false)]
    #[verifier::rlimit(60)]
    pub fn to_lines(&self, options: &RenderOptions, result: &mut Vec<Line>)
        ensures
            lines_view(final(result)@) == lines_view(old(result)@) + spec_node_lines(
                self@,
                *options,
            ),
        decreases *self,
    {
        let ghost o = *options;
        let ghost vv = values_view(self.values@);

        // 1. keep the values that render in this mode
        let mut kept: Vec<ContentValue> = Vec::new();
        let mut j: usize = 0;
        while j < self.values.len()
            invariant
                j <= self.values.len(),
                values_view(kept@) == kept_values(vv.subrange(0, j as int), o.primary_only),
            decreases self.values.len() - j,
        {
            proof {
                assert(vv.subrange(0, j + 1).drop_last() =~= vv.subrange(0, j as int));
                assert(vv.subrange(0, j + 1).last() == vv[j as int]);
            }
            let m = &self.values[j].meta;
            if !m.is_id && !m.is_action_link && (!options.primary_only || m.is_primary_content) {
                let x = self.values[j].clone();
                kept.push(x);
                proof {
                    assert(values_view(kept@) =~= values_view(kept@.drop_last()).push(
                        vv[j as int],
                    ));
                }
            }
            j += 1;
        }
        proof {
            assert(vv.subrange(0, vv.len() as int) =~= vv);
        }

        // 2. sort into display order
        let sorted = sort_content_values(&kept);
        let ghost sv = values_view(sorted@);

        // 3. pack greedily into lines
        let mut lines: Vec<Line> = Vec::new();
        let mut cur: Vec<Span> = Vec::new();
        let mut cur_len: usize = 0;
        let mut k: usize = 0;
        while k < sorted.len()
            invariant
                k <= sorted.len(),
                lines_view(lines@) == pack_prefix(sv, o, k as int).lines,
                spans_view(cur@) == pack_prefix(sv, o, k as int).cur,
                cur_len as nat == spans_len(spans_view(cur@)),
                cur_len <= options.wrap_width,
            decreases sorted.len() - k,
        {
            let value_len = sorted[k].value.as_str().unicode_len();
            let sty = style_for_exec(&sorted[k].meta, options);
            let ghost st = pack_prefix(sv, o, k as int);
            let ghost st2 = pack_prefix(sv, o, k + 1);
            proof {
                assert(st2 == pack_step(st, sv[k as int], o));
            }
            if value_len > options.wrap_width {
                if cur.len() > 0 {
                    let full = Line { spans: cur };
                    lines.push(full);
                    cur = Vec::new();
                    cur_len = 0;
                    proof {
                        assert(lines_view(lines@) =~= lines_view(lines@.drop_last()).push(
                            full@,
                        ));
                        assert(spans_view(cur@) =~= Seq::<SpanView>::empty());
                    }
                }
                let ghost base = lines_view(lines@);
                let ghost block = wrap_block(wrap_of(sv[k as int].value, o.wrap_width as nat),
                    style_for(sv[k as int].meta, o));
                let segs = wrap_text(sorted[k].value.as_str(), options.wrap_width);
                let mut w: usize = 0;
                while w < segs.len()
                    invariant
                        w <= segs.len(),
                        lines_view(lines@) == base + block.subrange(0, w as int),
                        cur@.len() == 0,
                        cur_len == 0,
                    decreases segs.len() - w,
                {
                    let seg = segs[w].clone();
                    let ln = Line { spans: vec![Span { content: seg, style: sty }] };
                    lines.push(ln);
                    proof {
                        assert(ln@ =~= block[w as int]);
                        assert(lines_view(lines@) =~= (base + block.subrange(0, w as int)).push(
                            block[w as int],
                        ));
                        assert((base + block.subrange(0, w as int)).push(block[w as int]) =~= base
                            + block.subrange(0, w + 1));
                    }
                    w += 1;
                }
                proof {
                    assert(block.subrange(0, block.len() as int) =~= block);
                    assert(lines_view(lines@) =~= st2.lines);
                }
            } else if cur.len() == 0 {
                let vtext = sorted[k].value.clone();
                cur.push(Span { content: vtext, style: sty });
                cur_len = value_len;
                proof {
                    let xv = SpanView { content: sv[k as int].value, style: style_for(
                        sv[k as int].meta,
                        o,
                    ) };
                    assert(spans_view(cur@) =~= st2.cur);
                    assert(st2.cur =~= Seq::<SpanView>::empty().push(xv));
                    lemma_spans_len_push(Seq::<SpanView>::empty(), xv);
                }
            } else if options.wrap_width - cur_len > value_len {
                let vtext = sorted[k].value.clone();
                let ghost before = spans_view(cur@);
                cur.push(Span { content: " ".to_owned(), style: Style {
                    fg: options.text_color,
                    bg: options.background_color,
                    bold: false,
                    underlined: false,
                } });
                cur.push(Span { content: vtext, style: sty });
                cur_len = cur_len + 1 + value_len;
                proof {
                    reveal_strlit(" ");
                    let spv = SpanView { content: " "@, style: spacer_style(o) };
                    let xv = SpanView { content: sv[k as int].value, style: style_for(
                        sv[k as int].meta,
                        o,
                    ) };
                    assert(spans_view(cur@) =~= st2.cur);
                    assert(st2.cur =~= before.push(spv).push(xv));
                    lemma_spans_len_push(before, spv);
                    lemma_spans_len_push(before.push(spv), xv);
                }
            } else {
                let full = Line { spans: cur };
                lines.push(full);
                let vtext = sorted[k].value.clone();
                cur = Vec::new();
                cur.push(Span { content: vtext, style: sty });
                cur_len = value_len;
                proof {
                    let xv = SpanView { content: sv[k as int].value, style: style_for(
                        sv[k as int].meta,
                        o,
                    ) };
                    assert(lines_view(lines@) =~= lines_view(lines@.drop_last()).push(full@));
                    assert(spans_view(cur@) =~= st2.cur);
                    assert(st2.cur =~= Seq::<SpanView>::empty().push(xv));
                    lemma_spans_len_push(Seq::<SpanView>::empty(), xv);
                }
            }
            k += 1;
        }
        proof {
            assert(sv.subrange(0, sv.len() as int) =~= sv);
        }

        // 4. flush the started line
        if cur.len() > 0 {
            let full = Line { spans: cur };
            lines.push(full);
            proof {
                assert(lines_view(lines@) =~= lines_view(lines@.drop_last()).push(full@));
            }
        }
        proof {
            assert(lines_view(lines@) == node_own_lines(self@, o));
        }

        // 5. truncate to the cap, marking the cut
        if lines.len() > options.line_cap {
            let ghost before_cut = lines_view(lines@);
            lines.truncate(options.line_cap);
            proof {
                assert(lines_view(lines@) =~= before_cut.subrange(0, o.line_cap as int));
            }
            let marker = Line { spans: vec![Span {
                content: "(truncated)".to_owned(),
                style: Style {
                    fg: options.main_content_color,
                    bg: options.background_color,
                    bold: true,
                    underlined: false,
                },
            }] };
            lines.push(marker);
            proof {
                assert(marker@ =~= marker_line(o));
                assert(lines_view(lines@) =~= lines_view(lines@.drop_last()).push(marker@));
            }
        }
        proof {
            assert(lines_view(lines@) == node_own_lines_capped(self@, o));
        }

        // 6. hand the node's lines over, then the children's
        let ghost handed = lines_view(old(result)@) + node_own_lines_capped(self@, o);
        result.append(&mut lines);
        proof {
            assert(lines_view(result@) =~= handed);
            lemma_nodes_view(self.children@);
        }
        let ghost cs = nodes_view(self.children@);
        let mut i: usize = 0;
        while i < self.children.len()
            invariant
                i <= self.children.len(),
                lines_view(result@) == handed + spec_node_lines_seq(cs.subrange(0, i as int), o),
            decreases self.children.len() - i,
        {
            proof {
                assert(cs.subrange(0, i as int).push(cs[i as int]) =~= cs.subrange(0, i + 1));
                lemma_node_lines_seq_push(cs.subrange(0, i as int), cs[i as int], o);
            }
            self.children[i].to_lines(options, result);
            i += 1;
        }
        proof {
            assert(cs.subrange(0, cs.len() as int) =~= cs);
            assert(lines_view(result@) =~= lines_view(old(result)@) + spec_node_lines(self@, o));
        }
    }
}

/// The nodes of `s` whose rendering yields at least one line, in order:
/// the projector's renderer-driven variant drops the others, so no
/// dead-end selection is ever presented.
pub open spec fn rendering_nodes(s: Seq<NodeView>, o: RenderOptions) -> Seq<NodeView>
    decreases s,
{
    if s.len() == 0 {
        Seq::empty()
    } else {
        let rest = rendering_nodes(s.drop_last(), o);
        if spec_node_lines(s.last(), o).len() > 0 {
            rest.push(s.last())
        } else {
            rest
        }
    }
}

/// Keep only the items whose rendering would show something: a node whose
/// every value is filtered out and whose descendants all render empty
/// contributes zero lines, and is dropped from the view.
#[verifier::loop_isolation(false)]
pub fn drop_unrendered(items: &Vec<Content>, options: &RenderOptions) -> (r: Vec<Content>)
    ensures
        nodes_view(r@) == rendering_nodes(nodes_view(items@), *options),
{
    let ghost all = nodes_view(items@);
    proof {
        lemma_nodes_view(items@);
    }
    let mut out: Vec<Content> = Vec::new();
    let mut i: usize = 0;
    while i < items.len()
        invariant
            i <= items.len(),
            nodes_view(out@) == rendering_nodes(all.subrange(0, i as int), *options),
        decreases items.len() - i,
    {
        proof {
            assert(all.subrange(0, i + 1).drop_last() =~= all.subrange(0, i as int));
            assert(all.subrange(0, i + 1).last() == all[i as int]);
        }
        let mut probe: Vec<Line> = Vec::new();
        items[i].to_lines(options, &mut probe);
        proof {
            assert(lines_view(probe@) =~= spec_node_lines(all[i as int], *options));
        }
        if probe.len() > 0 {
            let kept_node = items[i].clone();
            let ghost before = out@;
            out.push(kept_node);
            proof {
                lemma_nodes_view_push(before, kept_node);
            }
        }
        i += 1;
    }
    proof {
        assert(all.subrange(0, all.len() as int) =~= all);
    }
    out
}

/// Whether a character counts as blank space.
pub open spec fn is_space_char(c: char) -> bool {
    c == ' ' || c == '\t' || c == '\n' || c == '\r'
}

/// Whether a text holds nothing but blank space.
pub open spec fn is_blank(s: Seq<char>) -> bool {
    forall|i: int| 0 <= i < s.len() ==> is_space_char(#[trigger] s[i])
}

/// The non-blank span texts of one line, in order.
pub open spec fn nonblank_in(s: Seq<SpanView>) -> Seq<Seq<char>>
    decreases s,
{
    if s.len() == 0 {
        Seq::empty()
    } else {
        let rest = nonblank_in(s.drop_last());
        if is_blank(s.last().content) {
            rest
        } else {
            rest.push(s.last().content)
        }
    }
}

/// The non-blank span texts of a run of lines, in reading order.
pub open spec fn nonblank_lines(ls: Seq<Seq<SpanView>>) -> Seq<Seq<char>>
    decreases ls,
{
    if ls.len() == 0 {
        Seq::empty()
    } else {
        nonblank_lines(ls.drop_last()) + nonblank_in(ls.last())
    }
}

/// Whether a text holds nothing but blank space.
#[verifier::loop_isolation(false)]
fn is_blank_exec(s: &str) -> (r: bool)
    ensures
        r == is_blank(s@),
{
    let n = s.unicode_len();
    let mut i: usize = 0;
    while i < n
        invariant
            i <= n,
            forall|j: int| 0 <= j < i ==> is_space_char(#[trigger] s@[j]),
        decreases n - i,
    {
        let c = s.get_char(i);
        if !(c == ' ' || c == '\t' || c == '\n' || c == '\r') {
            return false;
        }
        i += 1;
    }
    true
}

/// The value the value-cursor points at: the `index`th non-blank span text
/// of the rendered lines, in reading order, or `None` when the cursor has
/// run past the last one.
#[verifier::loop_isolation(false)]
pub fn pick_value(lines: &Vec<Line>, index: usize) -> (r: Option<String>)
    ensures
        match r {
            Some(v) => {
                &&& index < nonblank_lines(lines_view(lines@)).len()
                &&& v@ == nonblank_lines(lines_view(lines@))[index as int]
            },
            None => index >= nonblank_lines(lines_view(lines@)).len(),
        },
{
    let ghost all = lines_view(lines@);
    let mut found: Vec<String> = Vec::new();
    let mut i: usize = 0;
    while i < lines.len()
        invariant
            i <= lines.len(),
            texts_view(found@) == nonblank_lines(all.subrange(0, i as int)),
        decreases lines.len() - i,
    {
        proof {
            assert(all.subrange(0, i + 1).drop_last() =~= all.subrange(0, i as int));
            assert(all.subrange(0, i + 1).last() == all[i as int]);
        }
        let ghost base = nonblank_lines(all.subrange(0, i as int));
        let ghost sp = all[i as int];
        let line = &lines[i];
        let mut j: usize = 0;
        while j < line.spans.len()
            invariant
                j <= line.spans.len(),
                sp == line@,
                base == nonblank_lines(all.subrange(0, i as int)),
                texts_view(found@) == base + nonblank_in(sp.subrange(0, j as int)),
            decreases line.spans.len() - j,
        {
            proof {
                assert(sp.subrange(0, j + 1).drop_last() =~= sp.subrange(0, j as int));
                assert(sp.subrange(0, j + 1).last() == sp[j as int]);
                assert(sp[j as int] == line.spans@[j as int]@);
            }
            if !is_blank_exec(line.spans[j].content.as_str()) {
                let t = line.spans[j].content.clone();
                found.push(t);
                proof {
                    assert(texts_view(found@) =~= texts_view(found@.drop_last()).push(
                        sp[j as int].content,
                    ));
                    assert(base + nonblank_in(sp.subrange(0, j + 1)) =~= (base + nonblank_in(
                        sp.subrange(0, j as int),
                    )).push(sp[j as int].content));
                }
            }
            j += 1;
        }
        proof {
            assert(sp.subrange(0, sp.len() as int) =~= sp);
        }
        i += 1;
    }
    proof {
        assert(all.subrange(0, all.len() as int) =~= all);
    }
    if index < found.len() {
        Some(found[index].clone())
    } else {
        None
    }
}

} // verus!
