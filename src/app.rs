use vstd::prelude::*;

use crate::config::{Category, CommandItem};

verus! {

/// One row of the menu: either a category header, which is never selectable,
/// or a runnable command.
pub enum MenuItem {
    CategoryHeader(String),
    Command(CommandItem),
}

/// The rows that `categories` flatten to: for each category in order, its
/// header followed by each of its commands in order.
pub open spec fn flatten(categories: Seq<Category>) -> Seq<MenuItem>
    decreases categories.len(),
{
    if categories.len() == 0 {
        Seq::empty()
    } else {
        let last = categories.last();
        flatten(categories.drop_last()).push(MenuItem::CategoryHeader(last.name)) + last.commands@.map_values(
            |c: CommandItem| MenuItem::Command(c),
        )
    }
}

/// The positions of the command rows of `items`, in increasing order.
pub open spec fn command_positions(items: Seq<MenuItem>) -> Seq<int>
    decreases items.len(),
{
    if items.len() == 0 {
        Seq::empty()
    } else {
        let before = command_positions(items.drop_last());
        if items.last() is Command {
            before.push(items.len() - 1)
        } else {
            before
        }
    }
}

/// How many command rows stand before position `i`.
pub open spec fn rank(items: Seq<MenuItem>, i: int) -> int {
    command_positions(items.take(i)).len() as int
}

/// A selection fits `items` when it points at a command row, and is absent
/// exactly when there is no command row at all.
pub open spec fn valid_selection(items: Seq<MenuItem>, sel: Option<usize>) -> bool {
    match sel {
        Some(i) => i < items.len() && items[i as int] is Command,
        None => command_positions(items).len() == 0,
    }
}

/// The selection a fresh menu starts with: the first command row, if any.
pub open spec fn first_selection(items: Seq<MenuItem>) -> Option<usize> {
    let c = command_positions(items);
    if c.len() == 0 {
        None
    } else {
        Some(c[0] as usize)
    }
}

/// The command row after the selected one, wrapping from the last to the
/// first; with no selection, the first command row.
pub open spec fn next_selection(items: Seq<MenuItem>, sel: Option<usize>) -> Option<usize> {
    let c = command_positions(items);
    if c.len() == 0 {
        None
    } else {
        match sel {
            None => Some(c[0] as usize),
            Some(i) => {
                let r = rank(items, i as int);
                if r + 1 < c.len() {
                    Some(c[r + 1] as usize)
                } else {
                    Some(c[0] as usize)
                }
            },
        }
    }
}

/// The command row before the selected one, wrapping from the first to the
/// last; with no selection, the first command row.
pub open spec fn previous_selection(items: Seq<MenuItem>, sel: Option<usize>) -> Option<usize> {
    let c = command_positions(items);
    if c.len() == 0 {
        None
    } else {
        match sel {
            None => Some(c[0] as usize),
            Some(i) => {
                let r = rank(items, i as int);
                if r > 0 {
                    Some(c[r - 1] as usize)
                } else {
                    Some(c[c.len() - 1] as usize)
                }
            },
        }
    }
}

/// The command line of the selected row, when it is a command row.
pub open spec fn selected_command_of(items: Seq<MenuItem>, sel: Option<usize>) -> Option<String> {
    match sel {
        Some(i) => if i < items.len() && items[i as int] is Command {
            Some(items[i as int]->Command_0.command)
        } else {
            None
        },
        None => None,
    }
}

/// Extending a prefix of `items` by one row adds that row's position exactly
/// when it is a command row.
proof fn lemma_take_step(items: Seq<MenuItem>, i: int)
    requires
        0 <= i < items.len(),
    ensures
        command_positions(items.take(i + 1)) == if items[i] is Command {
            command_positions(items.take(i)).push(i)
        } else {
            command_positions(items.take(i))
        },
{
    let t = items.take(i + 1);
    assert(t.drop_last() =~= items.take(i));
    assert(t.last() == items[i]);
}

/// A stretch of rows without commands adds no positions.
proof fn lemma_no_commands_between(items: Seq<MenuItem>, a: int, b: int)
    requires
        0 <= a <= b <= items.len(),
        forall|k: int| a <= k < b ==> !(#[trigger] items[k] is Command),
    ensures
        command_positions(items.take(b)) == command_positions(items.take(a)),
    decreases b - a,
{
    if a < b {
        lemma_no_commands_between(items, a, b - 1);
        lemma_take_step(items, b - 1);
    }
}

/// Every position listed is a command row of `items`, and the list is
/// strictly increasing.
proof fn lemma_positions_sorted(items: Seq<MenuItem>)
    ensures
        forall|k: int|
            0 <= k < command_positions(items).len() ==> 0 <= #[trigger] command_positions(items)[k]
                < items.len() && items[command_positions(items)[k]] is Command,
        forall|a: int, b: int|
            0 <= a < b < command_positions(items).len() ==> #[trigger] command_positions(items)[a]
                < #[trigger] command_positions(items)[b],
    decreases items.len(),
{
    if items.len() > 0 {
        let d = items.drop_last();
        lemma_positions_sorted(d);
        assert forall|k: int| 0 <= k < command_positions(d).len() implies items[command_positions(
            d,
        )[k]] == d[command_positions(d)[k]] by {}
    }
}

/// The positions listed for a prefix of `items` begin the list for `items`.
proof fn lemma_prefix_positions(items: Seq<MenuItem>, j: int)
    requires
        0 <= j <= items.len(),
    ensures
        command_positions(items.take(j)).len() <= command_positions(items).len(),
        command_positions(items).take(command_positions(items.take(j)).len() as int)
            == command_positions(items.take(j)),
    decreases items.len() - j,
{
    if j == items.len() {
        assert(items.take(j) =~= items);
        assert(command_positions(items).take(command_positions(items).len() as int)
            =~= command_positions(items));
    } else {
        lemma_prefix_positions(items, j + 1);
        lemma_take_step(items, j);
        let short = command_positions(items.take(j));
        let long = command_positions(items.take(j + 1));
        assert(command_positions(items).take(short.len() as int) =~= short) by {
            assert(long.take(short.len() as int) =~= short);
            assert forall|k: int| 0 <= k < short.len() implies command_positions(items)[k]
                == short[k] by {
                assert(command_positions(items).take(long.len() as int)[k] == long[k]);
            }
        }
    }
}

/// A command row stands at the place in the list that its rank gives.
proof fn lemma_rank_of_command(items: Seq<MenuItem>, i: int)
    requires
        0 <= i < items.len(),
        items[i] is Command,
    ensures
        0 <= rank(items, i) < command_positions(items).len(),
        command_positions(items)[rank(items, i)] == i,
{
    lemma_take_step(items, i);
    lemma_prefix_positions(items, i + 1);
    let c = command_positions(items);
    let p = command_positions(items.take(i + 1));
    assert(c.take(p.len() as int)[rank(items, i)] == p[rank(items, i)]);
}

/// The rank of the row at the `k`-th listed position is `k`.
proof fn lemma_rank_of_position(items: Seq<MenuItem>, k: int)
    requires
        0 <= k < command_positions(items).len(),
    ensures
        rank(items, command_positions(items)[k]) == k,
{
    let c = command_positions(items);
    lemma_positions_sorted(items);
    lemma_rank_of_command(items, c[k]);
    let r = rank(items, c[k]);
    if r < k {
        assert(c[r] < c[k]);
    } else if r > k {
        assert(c[k] < c[r]);
    }
}

/// The selection after `k` moves to the next command row from `sel`.
pub open spec fn selection_after_nexts(items: Seq<MenuItem>, sel: Option<usize>, k: nat) -> Option<
    usize,
>
    decreases k,
{
    if k == 0 {
        sel
    } else {
        next_selection(items, selection_after_nexts(items, sel, (k - 1) as nat))
    }
}

/// Where the cursor stands, in the list of command positions, `k` steps
/// after place `r` when going round a list of `n`.
spec fn rotated(r: int, k: int, n: int) -> int {
    if r + k < n {
        r + k
    } else {
        r + k - n
    }
}

proof fn lemma_nexts_rotate(items: Seq<MenuItem>, i: usize, k: nat)
    requires
        items.len() <= usize::MAX,
        valid_selection(items, Some(i)),
        k <= command_positions(items).len(),
    ensures
        selection_after_nexts(items, Some(i), k) == Some(
            command_positions(items)[rotated(
                rank(items, i as int),
                k as int,
                command_positions(items).len() as int,
            )] as usize,
        ),
    decreases k,
{
    let c = command_positions(items);
    lemma_rank_of_command(items, i as int);
    lemma_positions_sorted(items);
    if k > 0 {
        lemma_nexts_rotate(items, i, (k - 1) as nat);
        let q = rotated(rank(items, i as int), k - 1, c.len() as int);
        lemma_rank_of_position(items, q);
        assert(c[q] as usize as int == c[q]);
    }
}

/// Moving to the next command row as many times as there are command rows
/// visits every command row exactly once, never stops on a header, and
/// comes back to the row it started from.
pub proof fn lemma_next_cycles(items: Seq<MenuItem>, sel: Option<usize>)
    requires
        items.len() <= usize::MAX,
        valid_selection(items, sel),
        command_positions(items).len() > 0,
    ensures
        selection_after_nexts(items, sel, command_positions(items).len()) == sel,
        forall|k: nat|
            k < command_positions(items).len() ==> #[trigger] selection_after_nexts(items, sel, k)
                is Some && selection_after_nexts(items, sel, k)->0 < items.len() && items[selection_after_nexts(
                items,
                sel,
                k,
            )->0 as int] is Command,
        forall|k1: nat, k2: nat|
            k1 < k2 < command_positions(items).len() ==> #[trigger] selection_after_nexts(
                items,
                sel,
                k1,
            ) != #[trigger] selection_after_nexts(items, sel, k2),
        forall|p: int|
            0 <= p < items.len() && #[trigger] items[p] is Command ==> exists|k: nat|
                k < command_positions(items).len() && selection_after_nexts(items, sel, k) == Some(
                    p as usize,
                ),
{
    let c = command_positions(items);
    let n = c.len() as int;
    let i = sel->0;
    let r = rank(items, i as int);
    lemma_rank_of_command(items, i as int);
    lemma_positions_sorted(items);
    lemma_nexts_rotate(items, i, n as nat);
    assert(c[r] as usize == i);
    assert forall|k: nat| k < n implies #[trigger] selection_after_nexts(items, sel, k) is Some
        && selection_after_nexts(items, sel, k)->0 < items.len() && items[selection_after_nexts(
        items,
        sel,
        k,
    )->0 as int] is Command by {
        lemma_nexts_rotate(items, i, k);
        let q = rotated(r, k as int, n);
        assert(c[q] as usize as int == c[q]);
    }
    assert forall|k1: nat, k2: nat| k1 < k2 < n implies #[trigger] selection_after_nexts(
        items,
        sel,
        k1,
    ) != #[trigger] selection_after_nexts(items, sel, k2) by {
        lemma_nexts_rotate(items, i, k1);
        lemma_nexts_rotate(items, i, k2);
        let q1 = rotated(r, k1 as int, n);
        let q2 = rotated(r, k2 as int, n);
        assert(c[q1] as usize as int == c[q1]);
        assert(c[q2] as usize as int == c[q2]);
        if q1 < q2 {
            assert(c[q1] < c[q2]);
        } else {
            assert(c[q2] < c[q1]);
        }
    }
    assert forall|p: int| 0 <= p < items.len() && #[trigger] items[p] is Command implies exists|
        k: nat,
    | k < n && selection_after_nexts(items, sel, k) == Some(p as usize) by {
        lemma_rank_of_command(items, p);
        let rp = rank(items, p);
        let k: nat = if rp >= r {
            (rp - r) as nat
        } else {
            (rp - r + n) as nat
        };
        lemma_nexts_rotate(items, i, k);
        assert(selection_after_nexts(items, sel, k) == Some(p as usize));
    }
}

/// From any valid selection of a menu with a command row, moving next and
/// then back, or back and then next, returns to the same selection.
pub proof fn lemma_next_previous_inverse(items: Seq<MenuItem>, sel: Option<usize>)
    requires
        items.len() <= usize::MAX,
        valid_selection(items, sel),
        command_positions(items).len() > 0,
    ensures
        previous_selection(items, next_selection(items, sel)) == sel,
        next_selection(items, previous_selection(items, sel)) == sel,
{
    let c = command_positions(items);
    let n = c.len() as int;
    let i = sel->0;
    let r = rank(items, i as int);
    lemma_rank_of_command(items, i as int);
    lemma_positions_sorted(items);
    let up = if r + 1 < n {
        r + 1
    } else {
        0
    };
    let down = if r > 0 {
        r - 1
    } else {
        n - 1
    };
    lemma_rank_of_position(items, up);
    lemma_rank_of_position(items, down);
    assert(c[up] as usize as int == c[up]);
    assert(c[down] as usize as int == c[down]);
}

/// Moving either way keeps the selection on a command row, so the selected
/// command is never taken from a header.
pub proof fn lemma_navigation_keeps_selection_valid(items: Seq<MenuItem>, sel: Option<usize>)
    requires
        items.len() <= usize::MAX,
        valid_selection(items, sel),
    ensures
        valid_selection(items, next_selection(items, sel)),
        valid_selection(items, previous_selection(items, sel)),
        valid_selection(items, first_selection(items)),
        selected_command_of(items, sel) is Some <==> command_positions(items).len() > 0,
{
    let c = command_positions(items);
    lemma_positions_sorted(items);
    if c.len() > 0 {
        lemma_rank_of_command(items, sel->0 as int);
        let r = rank(items, sel->0 as int);
        assert(c[0] as usize as int == c[0]);
        assert(c[c.len() - 1] as usize as int == c[c.len() - 1]);
        if r + 1 < c.len() {
            assert(c[r + 1] as usize as int == c[r + 1]);
        }
        if r > 0 {
            assert(c[r - 1] as usize as int == c[r - 1]);
        }
    } else if sel is Some {
        lemma_rank_of_command(items, sel->0 as int);
    }
}

/// With no command row at all there is no selection, moving either way
/// leaves it absent, and no command is selected.
pub proof fn lemma_no_commands_no_selection(items: Seq<MenuItem>, sel: Option<usize>)
    requires
        valid_selection(items, sel),
        command_positions(items).len() == 0,
    ensures
        sel is None,
        next_selection(items, sel) is None,
        previous_selection(items, sel) is None,
        selected_command_of(items, sel) is None,
{
    if sel is Some {
        lemma_rank_of_command(items, sel->0 as int);
    }
}

/// Index of the first command row at or after `start`, if there is one.
fn first_command_from(items: &Vec<MenuItem>, start: usize) -> (r: Option<usize>)
    requires
        start <= items.len(),
    ensures
        match r {
            Some(j) => start <= j < items.len() && items@[j as int] is Command && forall|k: int|
                start <= k < j ==> !(#[trigger] items@[k] is Command),
            None => forall|k: int| start <= k < items.len() ==> !(#[trigger] items@[k] is Command),
        },
    no_unwind
{
    let mut j: usize = start;
    while j < items.len()
        invariant
            start <= j <= items.len(),
            forall|k: int| start <= k < j ==> !(#[trigger] items@[k] is Command),
        decreases items.len() - j,
    {
        if matches!(items[j], MenuItem::Command(_)) {
            return Some(j);
        }
        j = j + 1;
    }
    None
}

/// Index of the last command row before `end`, if there is one.
fn last_command_before(items: &Vec<MenuItem>, end: usize) -> (r: Option<usize>)
    requires
        end <= items.len(),
    ensures
        match r {
            Some(j) => j < end && items@[j as int] is Command && forall|k: int|
                j < k < end ==> !(#[trigger] items@[k] is Command),
            None => forall|k: int| 0 <= k < end ==> !(#[trigger] items@[k] is Command),
        },
    no_unwind
{
    let mut j: usize = end;
    while j > 0
        invariant
            j <= end <= items.len(),
            forall|k: int| j <= k < end ==> !(#[trigger] items@[k] is Command),
        decreases j,
    {
        j = j - 1;
        if matches!(items[j], MenuItem::Command(_)) {
            return Some(j);
        }
    }
    None
}

/// The menu: the flattened rows, the current selection and the title.
pub struct App {
    items: Vec<MenuItem>,
    selected: Option<usize>,
    title: String,
}

impl App {
    #[verifier::type_invariant]
    spec fn well_formed(self) -> bool {
        valid_selection(self.items@, self.selected)
    }

    /// The rows of the menu.
    pub closed spec fn entries(self) -> Seq<MenuItem> {
        self.items@
    }

    /// The position of the selected row, if any.
    pub closed spec fn selection(self) -> Option<usize> {
        self.selected
    }

    /// The title shown above the menu.
    pub closed spec fn title_spec(self) -> String {
        self.title
    }

    /// Builds the menu from `categories`, selecting the first command row.
    pub fn new(categories: Vec<Category>, title: String) -> (r: App)
        ensures
            r.entries() == flatten(categories@),
            r.selection() == first_selection(r.entries()),
            r.title_spec() == title,
            r.entries().len() <= usize::MAX,
            valid_selection(r.entries(), r.selection()),
    {
        let mut items: Vec<MenuItem> = Vec::new();
        for category in it: categories
            invariant
                it.seq() == categories@,
                items@ == flatten(categories@.take(it.index() as int)),
        {
            let ghost done = items@;
            let ghost k = it.index() as int;
            assert(categories@.take(k + 1).drop_last() =~= categories@.take(k));
            let Category { name, commands } = category;
            let ghost cs = commands@;
            items.push(MenuItem::CategoryHeader(name));
            for command in cit: commands
                invariant
                    cit.seq() == cs,
                    items@ == done.push(MenuItem::CategoryHeader(category.name)) + cs.take(
                        cit.index() as int,
                    ).map_values(|c: CommandItem| MenuItem::Command(c)),
            {
                let ghost ci = cit.index() as int;
                items.push(MenuItem::Command(command));
                proof {
                    assert(cs.take(ci + 1).map_values(|c: CommandItem| MenuItem::Command(c))
                        =~= cs.take(ci).map_values(|c: CommandItem| MenuItem::Command(c)).push(
                        MenuItem::Command(cs[ci]),
                    ));
                }
            }
            proof {
                assert(cs.take(cs.len() as int) =~= cs);
            }
        }
        proof {
            assert(categories@.take(categories@.len() as int) =~= categories@);
        }
        let selected = first_command_from(&items, 0);
        proof {
            match selected {
                Some(j) => {
                    lemma_no_commands_between(items@, 0, j as int);
                    lemma_rank_of_command(items@, j as int);
                    assert(items@.take(0) =~= Seq::<MenuItem>::empty());
                },
                None => {
                    lemma_no_commands_between(items@, 0, items@.len() as int);
                    assert(items@.take(0) =~= Seq::<MenuItem>::empty());
                    assert(items@.take(items@.len() as int) =~= items@);
                },
            }
        }
        App { items, selected, title }
    }

    /// Moves the selection to the next command row, skipping headers and
    /// wrapping from the last command row to the first.
    pub fn next(&mut self)
        ensures
            final(self).entries() == old(self).entries(),
            final(self).title_spec() == old(self).title_spec(),
            final(self).selection() == next_selection(old(self).entries(), old(self).selection()),
        no_unwind
    {
        proof {
            use_type_invariant(&*self);
        }
        let ghost items = self.items@;
        // The selection lies below the length, which fits a `usize`, so the
        // row after it can be named without overflow.
        let _len = self.items.len();
        let target = match self.selected {
            Some(i) => match first_command_from(&self.items, i + 1) {
                Some(j) => {
                    proof {
                        lemma_take_step(items, i as int);
                        lemma_no_commands_between(items, i + 1, j as int);
                        lemma_rank_of_command(items, j as int);
                    }
                    Some(j)
                },
                None => {
                    proof {
                        lemma_rank_of_command(items, i as int);
                        lemma_take_step(items, i as int);
                        lemma_no_commands_between(items, i + 1, items.len() as int);
                        assert(items.take(items.len() as int) =~= items);
                    }
                    first_command_from(&self.items, 0)
                },
            },
            None => first_command_from(&self.items, 0),
        };
        proof {
            assert(items.take(0) =~= Seq::<MenuItem>::empty());
            match target {
                Some(j) => {
                    lemma_rank_of_command(items, j as int);
                    if self.selected is None || rank(items, j as int) != rank(
                        items,
                        self.selected->0 as int,
                    ) + 1 {
                        lemma_no_commands_between(items, 0, j as int);
                    }
                },
                None => {
                    lemma_no_commands_between(items, 0, items.len() as int);
                    assert(items.take(items.len() as int) =~= items);
                },
            }
        }
        self.selected = target;
    }

    /// Moves the selection to the previous command row, skipping headers and
    /// wrapping from the first command row to the last.
    pub fn previous(&mut self)
        ensures
            final(self).entries() == old(self).entries(),
            final(self).title_spec() == old(self).title_spec(),
            final(self).selection() == previous_selection(old(self).entries(), old(self).selection()),
        no_unwind
    {
        proof {
            use_type_invariant(&*self);
        }
        let ghost items = self.items@;
        let target = match self.selected {
            Some(i) => match last_command_before(&self.items, i) {
                Some(j) => {
                    proof {
                        lemma_take_step(items, j as int);
                        lemma_no_commands_between(items, j + 1, i as int);
                        lemma_rank_of_command(items, j as int);
                    }
                    Some(j)
                },
                None => {
                    proof {
                        lemma_no_commands_between(items, 0, i as int);
                        assert(items.take(0) =~= Seq::<MenuItem>::empty());
                    }
                    last_command_before(&self.items, self.items.len())
                },
            },
            None => first_command_from(&self.items, 0),
        };
        proof {
            match (self.selected, target) {
                (Some(i), Some(j)) => {
                    if j >= i {
                        lemma_rank_of_command(items, j as int);
                        lemma_rank_of_command(items, i as int);
                        lemma_take_step(items, j as int);
                        lemma_no_commands_between(items, j + 1, items.len() as int);
                        assert(items.take(items.len() as int) =~= items);
                    }
                },
                (None, Some(j)) => {
                    lemma_rank_of_command(items, j as int);
                },
                (_, None) => {
                    lemma_no_commands_between(items, 0, items.len() as int);
                    assert(items.take(0) =~= Seq::<MenuItem>::empty());
                    assert(items.take(items.len() as int) =~= items);
                },
            }
        }
        self.selected = target;
    }

    /// The command line of the selected row; `None` exactly when the menu
    /// has no command row.
    pub fn get_selected_command(&self) -> (r: Option<&String>)
        ensures
            r is Some <==> selected_command_of(self.entries(), self.selection()) is Some,
            r is Some ==> *r->0 == selected_command_of(self.entries(), self.selection())->0,
            r is Some <==> command_positions(self.entries()).len() > 0,
    {
        proof {
            use_type_invariant(self);
            if self.selected is Some {
                lemma_rank_of_command(self.items@, self.selected->0 as int);
            }
        }
        match self.selected {
            Some(i) => match &self.items[i] {
                MenuItem::Command(cmd) => Some(&cmd.command),
                MenuItem::CategoryHeader(_) => None,
            },
            None => None,
        }
    }

    /// The rows of the menu, headers included.
    pub fn items(&self) -> (r: &Vec<MenuItem>)
        ensures
            r@ == self.entries(),
    {
        &self.items
    }

    /// The position of the selected row, if any.
    pub fn selected(&self) -> (r: Option<usize>)
        ensures
            r == self.selection(),
    {
        self.selected
    }

    /// The title shown above the menu.
    pub fn title(&self) -> (r: &String)
        ensures
            *r == self.title_spec(),
    {
        &self.title
    }
}

} // verus!
