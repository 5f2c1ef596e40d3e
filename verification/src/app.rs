use vstd::prelude::*;

use crate::input::{Content, Input, NodeView, node_view, nodes_view, lemma_nodes_view, spec_max_depth};
use crate::estimator::{spec_estimate, spec_mpc_total};
use crate::project::{spec_project, opt_id_view};
use crate::selection::{StatefulList, spec_next_cursor, spec_previous_cursor};
use crate::session::Session;
use crate::style::ColorPalette;

verus! {

/// The depth a session starts at when the estimator is not used.
pub const DEFAULT_DEPTH: usize = 1;

/// The images of a stack of ancestor ids, in order.
pub open spec fn stack_view(s: Seq<String>) -> Seq<Seq<char>> {
    s.map_values(|x: String| x@)
}

/// The ancestor constraint a stack imposes: its most recent id, if any.
pub open spec fn current_parent(stack: Seq<Seq<char>>) -> Option<Seq<char>> {
    if stack.len() == 0 {
        None
    } else {
        Some(stack.last())
    }
}

/// Projecting at depth `d` with an empty ancestor stack returns only
/// nodes sitting exactly at depth `d`, and never a degenerate one.
pub proof fn lemma_view_holds_requested_depth(root: NodeView, d: nat)
    ensures
        forall|i: int|
            0 <= i < spec_project(root, d, current_parent(Seq::empty())).len() ==> {
                &&& (#[trigger] spec_project(root, d, current_parent(Seq::empty()))[i]).depth
                    == d
                &&& !spec_project(root, d, current_parent(Seq::empty()))[i].degenerate()
            },
{
    crate::project::lemma_project_members(root, d, current_parent(Seq::empty()));
}

/// With a non-empty ancestor stack, every node of the projected view points
/// back at the stack's most recent id.
pub proof fn lemma_view_holds_stack_parent(root: NodeView, d: nat, stack: Seq<Seq<char>>)
    requires
        stack.len() > 0,
    ensures
        forall|i: int|
            0 <= i < spec_project(root, d, current_parent(stack)).len() ==> (
            #[trigger] spec_project(root, d, current_parent(stack))[i]).parent_id == Some(
                stack.last(),
            ),
{
    crate::project::lemma_project_members(root, d, current_parent(stack));
}

/// A navigation state: the pair that identifies it entirely.
pub struct NavState {
    pub depth: nat,
    pub stack: Seq<Seq<char>>,
}

/// One explicit descent: push the selected id, go one level deeper.
pub open spec fn spec_deepen_step(s: NavState, id: Seq<char>) -> NavState {
    NavState { depth: s.depth + 1, stack: s.stack.push(id) }
}

/// One ascent: pop the breadcrumb and come one level up; at depth 0 nothing
/// moves.
pub open spec fn spec_rise(s: NavState) -> NavState {
    if s.depth == 0 {
        s
    } else {
        NavState {
            depth: (s.depth - 1) as nat,
            stack: if s.stack.len() > 0 {
                s.stack.drop_last()
            } else {
                s.stack
            },
        }
    }
}

/// The round-trip law: a single Deepen followed immediately by Rise
/// restores the exact `(current_depth, ancestor_stack)` pair, from any
/// state. (When Deepen auto-chains past singleton views, Rise undoes
/// exactly one level of the chain, not the whole chain.)
pub proof fn lemma_deepen_rise_round_trip(s: NavState, id: Seq<char>)
    ensures
        spec_rise(spec_deepen_step(s, id)) == s,
{
    assert(s.stack.push(id).drop_last() =~= s.stack);
}

/// Where a chain of automatic descents through singleton views ends, and
/// with which cursor: entered at `depth` with `stack`, the chain descends
/// while the view has exactly one node and the depth is not yet `maxd`; a
/// final singleton view is left selected.
pub open spec fn spec_chain(root: NodeView, depth: nat, stack: Seq<Seq<char>>, maxd: nat) -> (
    nat,
    Seq<Seq<char>>,
    Option<usize>,
)
    decreases maxd - depth,
{
    let v = spec_project(root, depth, current_parent(stack));
    if v.len() == 1 {
        if depth < maxd {
            spec_chain(root, depth + 1, stack.push(v[0].id), maxd)
        } else {
            (depth, stack, Some(0usize))
        }
    } else {
        (depth, stack, None)
    }
}

/// The interactive navigator: the loaded tree, the navigation state, the
/// selection over the current view, and the session flags.
pub struct App {
    pub should_quit: bool,
    pub should_display_primary_content: bool,
    pub session: Session,
    pub display_items: StatefulList<Content>,
    pub color_palette: ColorPalette,
    pub current_depth: usize,
    pub max_depth: usize,
    pub ancestor_stack: Vec<String>,
    pub input: Option<Input>,
    pub current_value_index: usize,
    pub current_value: Option<String>,
}

impl App {
    /// The loaded tree, where one is loaded.
    pub open spec fn root_view(&self) -> NodeView
        recommends
            self.input is Some,
    {
        match self.input {
            Some(ref inp) => inp.content@,
            None => NodeView {
                id: Seq::empty(),
                parent_id: None,
                depth: 0,
                values: Seq::empty(),
                children: Seq::empty(),
            },
        }
    }

    /// The current navigation state.
    pub open spec fn nav(&self) -> NavState {
        NavState { depth: self.current_depth as nat, stack: stack_view(self.ancestor_stack@) }
    }

    /// The navigator's invariant: the selection cursor is in bounds, and
    /// once a tree is loaded, `max_depth` is its deepest depth, the depth
    /// and breadcrumb stack are bounded, and the displayed items are
    /// exactly the projection of the current navigation state.
    pub open spec fn wf(&self) -> bool {
        &&& self.display_items.wf()
        &&& match self.input {
            Some(ref inp) => {
                &&& self.max_depth as nat == spec_max_depth(inp.content@)
                &&& self.current_depth <= self.max_depth
                &&& self.ancestor_stack@.len() <= self.current_depth
                &&& nodes_view(self.display_items.items@) == spec_project(
                    inp.content@,
                    self.current_depth as nat,
                    current_parent(stack_view(self.ancestor_stack@)),
                )
            },
            None => self.display_items.items@.len() == 0,
        }
    }

    /// Everything a navigation transition leaves alone.
    pub open spec fn same_core(pre: App, post: App) -> bool {
        &&& post.input == pre.input
        &&& post.max_depth == pre.max_depth
        &&& post.session == pre.session
        &&& post.color_palette == pre.color_palette
        &&& post.should_quit == pre.should_quit
        &&& post.should_display_primary_content == pre.should_display_primary_content
        &&& post.current_value == pre.current_value
        &&& post.current_value_index == pre.current_value_index
    }

    /// What Deepen does: a no-op without a tree, a selection, or room to
    /// descend; otherwise one explicit descent through the selected node,
    /// followed by the automatic chain through singleton views.
    pub open spec fn deeper_rel(pre: App, post: App) -> bool {
        match (pre.input, pre.display_items.cursor) {
            (Some(inp), Some(sel)) => if pre.current_depth < pre.max_depth {
                let id = nodes_view(pre.display_items.items@)[sel as int].id;
                let entered = spec_deepen_step(pre.nav(), id);
                let (d, st, cur) = spec_chain(
                    inp.content@,
                    entered.depth,
                    entered.stack,
                    pre.max_depth as nat,
                );
                &&& App::same_core(pre, post)
                &&& post.current_depth as nat == d
                &&& stack_view(post.ancestor_stack@) == st
                &&& post.display_items.cursor == cur
                &&& nodes_view(post.display_items.items@) == spec_project(
                    inp.content@,
                    d,
                    current_parent(st),
                )
            } else {
                post == pre
            },
            _ => post == pre,
        }
    }

    /// What Rise does: a no-op at depth 0 or without a tree; otherwise one
    /// level up with the breadcrumb popped, the view recomputed, and the
    /// selection cleared.
    pub open spec fn higher_rel(pre: App, post: App) -> bool {
        match pre.input {
            Some(inp) => if pre.current_depth > 0 {
                let risen = spec_rise(pre.nav());
                &&& App::same_core(pre, post)
                &&& post.nav() == risen
                &&& post.display_items.cursor is None
                &&& nodes_view(post.display_items.items@) == spec_project(
                    inp.content@,
                    risen.depth,
                    current_parent(risen.stack),
                )
            } else {
                post == pre
            },
            None => post == pre,
        }
    }

    /// A navigator with no tree loaded yet: nothing selected, the default
    /// colors, and the fixed default starting depth.
    pub fn new() -> (r: App)
        ensures
            r.should_quit == false,
            r.should_display_primary_content == true,
            r.session.depth == DEFAULT_DEPTH,
            r.session.value_view() is None,
            r.display_items.items@.len() == 0,
            r.display_items.cursor is None,
            r.current_depth == DEFAULT_DEPTH,
            r.ancestor_stack@.len() == 0,
            r.input is None,
            r.current_value_index == 0,
            r.current_value is None,
            r.color_palette.primary_hex@ == "#FF6600"@,
            r.color_palette.secondary_hex@ == "#828282"@,
            r.color_palette.background_hex@ == "#F6F6EF"@,
            r.wf(),
    {
        App {
            should_quit: false,
            should_display_primary_content: true,
            session: Session { depth: DEFAULT_DEPTH, value: None },
            display_items: StatefulList::with_items(Vec::new()),
            color_palette: ColorPalette {
                primary_hex: "#FF6600".to_owned(),
                secondary_hex: "#828282".to_owned(),
                background_hex: "#F6F6EF".to_owned(),
            },
            current_depth: DEFAULT_DEPTH,
            max_depth: 0,
            ancestor_stack: Vec::new(),
            input: None,
            current_value_index: 0,
            current_value: None,
        }
    }

    /// Ask the session loop to end.
    pub fn quit(&mut self)
        ensures
            *final(self) == (App { should_quit: true, ..*old(self) }),
    {
        self.should_quit = true;
    }

    /// Switch between primary-only and full display.
    pub fn toggle_primary_content(&mut self)
        ensures
            *final(self) == (App {
                should_display_primary_content: !old(self).should_display_primary_content,
                ..*old(self)
            }),
    {
        self.should_display_primary_content = !self.should_display_primary_content;
    }

    /// The session record to hand the host on quit.
    pub fn get_session(&self) -> (r: Session)
        ensures
            r.depth == self.current_depth,
            r.value_view() == match self.current_value {
                Some(ref v) => Some(v@),
                None => None,
            },
    {
        Session {
            depth: self.current_depth,
            value: match &self.current_value {
                Some(v) => Some(v.clone()),
                None => None,
            },
        }
    }

    /// Recompute the displayed items from the loaded tree and the current
    /// navigation state, with nothing selected.
    fn init_display_items(&mut self)
        ensures
            App::same_core(*old(self), *final(self)),
            final(self).current_depth == old(self).current_depth,
            final(self).ancestor_stack == old(self).ancestor_stack,
            final(self).display_items.cursor is None,
            final(self).display_items.last_selected is None,
            final(self).display_items.wf(),
            nodes_view(final(self).display_items.items@) == match old(self).input {
                Some(ref inp) => spec_project(
                    inp.content@,
                    old(self).current_depth as nat,
                    current_parent(stack_view(old(self).ancestor_stack@)),
                ),
                None => Seq::<NodeView>::empty(),
            },
    {
        let mut results: Vec<Content> = Vec::new();
        proof {
            assert(nodes_view(results@) =~= Seq::<NodeView>::empty());
        }
        match &self.input {
            Some(inp) => {
                let parent: Option<&String> = if self.ancestor_stack.len() > 0 {
                    Some(&self.ancestor_stack[self.ancestor_stack.len() - 1])
                } else {
                    None
                };
                proof {
                    if self.ancestor_stack.len() > 0 {
                        assert(stack_view(self.ancestor_stack@).last() == self.ancestor_stack@[(
                        self.ancestor_stack@.len() - 1) as int]@);
                    }
                    assert(opt_id_view(parent) == current_parent(
                        stack_view(self.ancestor_stack@),
                    ));
                }
                inp.content.go_down_depth(self.current_depth, parent, &mut results);
            },
            None => {},
        }
        self.display_items = StatefulList::with_items(results);
    }

    /// Load a tree and open the session at the fixed default depth (clamped
    /// to the tree's deepest level), with an empty breadcrumb stack.
    pub fn load_input(&mut self, input: &Input)
        ensures
            final(self).input matches Some(inp) && inp.content@ == input.content@,
            final(self).max_depth as nat == spec_max_depth(input.content@),
            final(self).current_depth == if DEFAULT_DEPTH <= spec_max_depth(input.content@) {
                DEFAULT_DEPTH as int
            } else {
                spec_max_depth(input.content@) as int
            },
            final(self).ancestor_stack@.len() == 0,
            final(self).display_items.cursor is None,
            final(self).should_quit == old(self).should_quit,
            final(self).should_display_primary_content == old(
                self,
            ).should_display_primary_content,
            final(self).session == old(self).session,
            final(self).color_palette == old(self).color_palette,
            final(self).current_value == old(self).current_value,
            final(self).current_value_index == old(self).current_value_index,
            final(self).wf(),
    {
        let md = input.content.max_depth();
        let depth: usize = if DEFAULT_DEPTH <= md {
            DEFAULT_DEPTH
        } else {
            md
        };
        self.input = Some(input.clone());
        self.max_depth = md;
        self.current_depth = depth;
        self.ancestor_stack = Vec::new();
        self.init_display_items();
        proof {
            assert(stack_view(self.ancestor_stack@) =~= Seq::<Seq<char>>::empty());
        }
    }

    /// Load a tree and open the session at the coherent starting depth
    /// (falling back to 0 where the estimator finds no candidate), with an
    /// empty breadcrumb stack.
    pub fn load_input_estimated(&mut self, input: &Input)
        ensures
            final(self).input matches Some(inp) && inp.content@ == input.content@,
            final(self).max_depth as nat == spec_max_depth(input.content@),
            spec_mpc_total(input.content@) <= u64::MAX ==> final(self).current_depth as nat
                == spec_clamped_estimate(input.content@),
            spec_mpc_total(input.content@) > u64::MAX ==> final(self).current_depth == 0,
            final(self).ancestor_stack@.len() == 0,
            final(self).display_items.cursor is None,
            final(self).should_quit == old(self).should_quit,
            final(self).should_display_primary_content == old(
                self,
            ).should_display_primary_content,
            final(self).session == old(self).session,
            final(self).color_palette == old(self).color_palette,
            final(self).current_value == old(self).current_value,
            final(self).current_value_index == old(self).current_value_index,
            final(self).wf(),
    {
        let md = input.content.max_depth();
        let est = input.content.starting_depth();
        let depth: usize = if est <= md {
            est
        } else {
            md
        };
        self.input = Some(input.clone());
        self.max_depth = md;
        self.current_depth = depth;
        self.ancestor_stack = Vec::new();
        self.init_display_items();
        proof {
            assert(stack_view(self.ancestor_stack@) =~= Seq::<Seq<char>>::empty());
        }
    }

    /// Descend one level through the selected node, then automatically
    /// collapse any chain of singleton views. Without a tree, a selection,
    /// or room to descend, nothing happens.
    pub fn deeper(&mut self)
        requires
            old(self).wf(),
        ensures
            App::deeper_rel(*old(self), *final(self)),
            final(self).wf(),
    {
        let sel = match self.display_items.selected() {
            Some(i) => i,
            None => {
                return ;
            },
        };
        if self.input.is_none() {
            return ;
        }
        if self.current_depth >= self.max_depth {
            return ;
        }
        let ghost pre = *old(self);
        let ghost root = pre.root_view();
        let ghost maxd = pre.max_depth as nat;
        proof {
            lemma_nodes_view(self.display_items.items@);
        }
        let id = self.display_items.items[sel].id.clone();
        let ghost idv = id@;
        let ghost entered = spec_deepen_step(pre.nav(), idv);
        self.current_depth += 1;
        self.ancestor_stack.push(id);
        proof {
            assert(stack_view(self.ancestor_stack@) =~= stack_view(pre.ancestor_stack@).push(
                entered.stack.last(),
            ));
        }
        self.init_display_items();
        while self.display_items.items.len() == 1 && self.current_depth < self.max_depth
            invariant
                pre == *old(self),
                root == pre.root_view(),
                maxd == pre.max_depth as nat,
                entered == spec_deepen_step(pre.nav(), idv),
                App::same_core(pre, *self),
                self.current_depth <= self.max_depth,
                self.ancestor_stack@.len() <= self.current_depth,
                self.display_items.cursor is None,
                self.display_items.last_selected is None,
                self.display_items.wf(),
                nodes_view(self.display_items.items@) == spec_project(
                    root,
                    self.current_depth as nat,
                    current_parent(stack_view(self.ancestor_stack@)),
                ),
                spec_chain(root, self.nav().depth, self.nav().stack, maxd) == spec_chain(
                    root,
                    entered.depth,
                    entered.stack,
                    maxd,
                ),
            decreases self.max_depth - self.current_depth,
        {
            proof {
                lemma_nodes_view(self.display_items.items@);
            }
            let ghost d_prev = self.current_depth as nat;
            let ghost s_prev = stack_view(self.ancestor_stack@);
            let ghost v_prev = nodes_view(self.display_items.items@);
            let next_id = self.display_items.items[0].id.clone();
            proof {
                assert(v_prev[0] == node_view(self.display_items.items@[0]));
                assert(v_prev[0].id == next_id@);
            }
            self.current_depth += 1;
            self.ancestor_stack.push(next_id);
            proof {
                assert(stack_view(self.ancestor_stack@) =~= s_prev.push(next_id@));
            }
            self.init_display_items();
            proof {
                assert(v_prev.len() == 1 && d_prev < maxd);
                assert(spec_chain(root, d_prev, s_prev, maxd) == spec_chain(
                    root,
                    d_prev + 1,
                    s_prev.push(v_prev[0].id),
                    maxd,
                ));
            }
        }
        proof {
            lemma_nodes_view(self.display_items.items@);
            let d_now = self.nav().depth;
            let s_now = self.nav().stack;
            if self.display_items.items@.len() == 1 {
                assert(spec_chain(root, d_now, s_now, maxd) == (d_now, s_now, Some(0usize)));
            } else {
                assert(spec_chain(root, d_now, s_now, maxd) == (d_now, s_now, None::<usize>));
            }
        }
        if self.display_items.items.len() == 1 {
            self.display_items.start();
        }
    }

    /// Come one level up, popping the breadcrumb; each Rise is exactly one
    /// level, even back through collapsed singleton levels. At depth 0 (or
    /// without a tree) nothing happens.
    pub fn higher(&mut self)
        requires
            old(self).wf(),
        ensures
            App::higher_rel(*old(self), *final(self)),
            final(self).wf(),
    {
        if self.input.is_none() {
            return ;
        }
        if self.current_depth == 0 {
            return ;
        }
        let ghost pre = *old(self);
        self.current_depth -= 1;
        if self.ancestor_stack.len() > 0 {
            self.ancestor_stack.pop();
            proof {
                assert(stack_view(self.ancestor_stack@) =~= stack_view(
                    pre.ancestor_stack@,
                ).drop_last());
            }
        }
        self.init_display_items();
    }

    /// A copy of the item the selection cursor points at, if any.
    pub fn get_current_object(&self) -> (r: Option<Content>)
        requires
            self.display_items.wf(),
        ensures
            match self.display_items.cursor {
                Some(i) => r matches Some(c) && c@ == self.display_items.items@[i as int]@,
                None => r is None,
            },
    {
        match self.display_items.selected() {
            Some(i) => Some(self.display_items.items[i].clone()),
            None => None,
        }
    }

    /// Point the value cursor back at the first value.
    pub fn first_value(&mut self)
        ensures
            *final(self) == (App { current_value_index: 0, ..*old(self) }),
    {
        self.current_value_index = 0;
    }

    /// Move the value cursor one value forward (it saturates at the top).
    pub fn next_value(&mut self)
        ensures
            *final(self) == (App {
                current_value_index: if old(self).current_value_index < usize::MAX {
                    (old(self).current_value_index + 1) as usize
                } else {
                    old(self).current_value_index
                },
                ..*old(self)
            }),
    {
        if self.current_value_index < usize::MAX {
            self.current_value_index += 1;
        }
    }

    /// Move the value cursor one value back, stopping at 0.
    pub fn previous_value(&mut self)
        ensures
            *final(self) == (App {
                current_value_index: if old(self).current_value_index > 0 {
                    (old(self).current_value_index - 1) as usize
                } else {
                    0
                },
                ..*old(self)
            }),
    {
        if self.current_value_index > 0 {
            self.current_value_index -= 1;
        }
    }

    /// Remember the value the cursor points at, for the session record.
    pub fn set_current_value(&mut self, v: Option<String>)
        ensures
            final(self).current_value == v,
            *final(self) == (App { current_value: v, ..*old(self) }),
    {
        self.current_value = v;
    }

    /// End the session without carrying a value out.
    pub fn exit_without_value(&mut self)
        ensures
            *final(self) == (App {
                should_quit: true,
                session: Session { depth: old(self).session.depth, value: None },
                ..*old(self)
            }),
    {
        self.session.value = None;
        self.quit();
    }

    /// End the session carrying the current value out.
    pub fn exit_with_value(&mut self)
        ensures
            final(self).should_quit,
            final(self).session.depth == old(self).session.depth,
            final(self).session.value_view() == match old(self).current_value {
                Some(ref v) => Some(v@),
                None => None,
            },
            final(self).display_items == old(self).display_items,
            final(self).current_depth == old(self).current_depth,
            final(self).ancestor_stack == old(self).ancestor_stack,
            final(self).input == old(self).input,
            final(self).current_value == old(self).current_value,
            final(self).current_value_index == old(self).current_value_index,
            final(self).should_display_primary_content == old(
                self,
            ).should_display_primary_content,
            final(self).color_palette == old(self).color_palette,
            final(self).max_depth == old(self).max_depth,
    {
        self.session.value = match &self.current_value {
            Some(v) => Some(v.clone()),
            None => None,
        };
        self.quit();
    }
}

/// The clamped coherent starting depth a loaded session opens at.
pub open spec fn spec_clamped_estimate(n: NodeView) -> nat {
    let e = match spec_estimate(n) {
        Some(d) => d,
        None => 0nat,
    };
    if e <= spec_max_depth(n) {
        e
    } else {
        spec_max_depth(n)
    }
}

/// The discrete key events the navigator consumes; a host decodes raw
/// terminal input into these.
#[derive(Clone, Copy, PartialEq, Eq, Structural, Debug)]
pub enum InputEvent {
    Quit,
    First,
    Last,
    SelectNext,
    SelectPrevious,
    TogglePrimaryContent,
    Deepen,
    Rise,
    NextValue,
    PreviousValue,
}

impl App {
    /// Apply one decoded key event to the navigator: the single place a
    /// host's input loop drives every transition through.
    pub fn apply_event(&mut self, e: InputEvent)
        requires
            old(self).wf(),
        ensures
            final(self).wf(),
            match e {
                InputEvent::Quit => *final(self) == (App { should_quit: true, ..*old(self) }),
                InputEvent::First => {
                    &&& App::same_core(*old(self), *final(self))
                    &&& final(self).display_items.items@ == old(self).display_items.items@
                    &&& final(self).display_items.cursor == if old(
                        self,
                    ).display_items.items@.len() == 0 {
                        old(self).display_items.cursor
                    } else {
                        Some(0usize)
                    }
                },
                InputEvent::Last => {
                    &&& App::same_core(*old(self), *final(self))
                    &&& final(self).display_items.items@ == old(self).display_items.items@
                    &&& final(self).display_items.cursor == if old(
                        self,
                    ).display_items.items@.len() == 0 {
                        old(self).display_items.cursor
                    } else {
                        Some((old(self).display_items.items@.len() - 1) as usize)
                    }
                },
                InputEvent::SelectNext => {
                    &&& App::same_core(*old(self), *final(self))
                    &&& final(self).display_items.items@ == old(self).display_items.items@
                    &&& final(self).display_items.cursor == spec_next_cursor(
                        old(self).display_items.cursor,
                        old(self).display_items.last_selected,
                        old(self).display_items.items@.len(),
                    )
                },
                InputEvent::SelectPrevious => {
                    &&& App::same_core(*old(self), *final(self))
                    &&& final(self).display_items.items@ == old(self).display_items.items@
                    &&& final(self).display_items.cursor == spec_previous_cursor(
                        old(self).display_items.cursor,
                        old(self).display_items.last_selected,
                        old(self).display_items.items@.len(),
                    )
                },
                InputEvent::TogglePrimaryContent => *final(self) == (App {
                    should_display_primary_content: !old(self).should_display_primary_content,
                    ..*old(self)
                }),
                InputEvent::Deepen => App::deeper_rel(*old(self), *final(self)),
                InputEvent::Rise => App::higher_rel(*old(self), *final(self)),
                InputEvent::NextValue => *final(self) == (App {
                    current_value_index: if old(self).current_value_index < usize::MAX {
                        (old(self).current_value_index + 1) as usize
                    } else {
                        old(self).current_value_index
                    },
                    ..*old(self)
                }),
                InputEvent::PreviousValue => *final(self) == (App {
                    current_value_index: if old(self).current_value_index > 0 {
                        (old(self).current_value_index - 1) as usize
                    } else {
                        0
                    },
                    ..*old(self)
                }),
            },
    {
        match e {
            InputEvent::Quit => self.quit(),
            InputEvent::First => self.display_items.start(),
            InputEvent::Last => self.display_items.end(),
            InputEvent::SelectNext => self.display_items.next(),
            InputEvent::SelectPrevious => self.display_items.previous(),
            InputEvent::TogglePrimaryContent => self.toggle_primary_content(),
            InputEvent::Deepen => self.deeper(),
            InputEvent::Rise => self.higher(),
            InputEvent::NextValue => self.next_value(),
            InputEvent::PreviousValue => self.previous_value(),
        }
    }
}

} // verus!
