//! The application state machine: modes, tabs, sort state, selection, the
//! edit buffer, and the operations the input loop drives. It is the sole
//! mutator of all in-memory data; a snapshot replaces wholesale, a command
//! mutates the store, and the selection is clamped on every data change.

use vstd::prelude::*;
use crate::command::{as_int_opt, command_of, invalid_text, parse_command, Command, SpecCommand};
use crate::config::{Config, TokenConfig};
use crate::fear_greed::FearGreedData;
use crate::market::CryptoData;
use crate::rows::{portfolio_rows_spec, watch_rows_spec};
use crate::text::{name_eq_ci, push_char};
use crate::MAX_MONEY;

verus! {

/// Whether keystrokes navigate or accumulate into the edit buffer.
#[derive(PartialEq, Eq, Structural, Clone, Copy, Debug)]
pub enum InputMode {
    Normal,
    Editing,
}

/// A sortable column: quote columns for the watchlist, position and derived
/// columns for the portfolio.
#[derive(PartialEq, Eq, Structural, Clone, Copy, Debug)]
pub enum SortColumn {
    Symbol,
    Price,
    Change1h,
    Change24h,
    Change7d,
    Change30d,
    Change90d,
    Volume24h,
    VolumeChange,
    MarketCap,
    Holdings,
    AvgBuy,
    CurrentValue,
    CostBasis,
    ProfitLoss,
    ProfitLossPercent,
}

/// The three views, each with its own rows.
#[derive(PartialEq, Eq, Structural, Clone, Copy, Debug)]
pub enum Tab {
    Watchlist,
    Portfolio,
    Market,
}

/// The ghost image of a store entry: what the command language observes
/// and mutates.
pub struct TokenView {
    pub name: Seq<char>,
    pub owned: Option<int>,
    pub avg_buy_price: Option<int>,
    pub in_watchlist: bool,
    pub in_portfolio: bool,
}

impl View for TokenConfig {
    type V = TokenView;

    open spec fn view(&self) -> TokenView {
        TokenView {
            name: self.name@,
            owned: as_int_opt(self.owned),
            avg_buy_price: as_int_opt(self.avg_buy_price),
            in_watchlist: self.in_watchlist,
            in_portfolio: self.in_portfolio,
        }
    }
}

/// The store as the command model sees it.
pub open spec fn store_view(tokens: Seq<TokenConfig>) -> Seq<TokenView> {
    tokens.map_values(|t: TokenConfig| t@)
}

/// First entry whose name matches case-insensitively, or -1.
pub open spec fn find_ci(s: Seq<TokenView>, name: Seq<char>) -> int
    decreases s.len(),
{
    if s.len() == 0 {
        -1
    } else if name_eq_ci(s[0].name, name) {
        0
    } else {
        let r = find_ci(s.drop_first(), name);
        if r < 0 {
            -1
        } else {
            r + 1
        }
    }
}

pub proof fn lemma_find_ci(s: Seq<TokenView>, name: Seq<char>)
    ensures
        find_ci(s, name) >= 0 ==> find_ci(s, name) < s.len() && name_eq_ci(
            s[find_ci(s, name)].name,
            name,
        ),
        find_ci(s, name) >= 0 ==> forall|i: int|
            0 <= i < find_ci(s, name) ==> !name_eq_ci((#[trigger] s[i]).name, name),
        find_ci(s, name) < 0 ==> forall|i: int|
            0 <= i < s.len() ==> !name_eq_ci((#[trigger] s[i]).name, name),
    decreases s.len(),
{
    if s.len() > 0 && !name_eq_ci(s[0].name, name) {
        lemma_find_ci(s.drop_first(), name);
        let r = find_ci(s.drop_first(), name);
        if r >= 0 {
            assert forall|i: int|
                0 <= i < r + 1 implies !name_eq_ci((#[trigger] s[i]).name, name) by {
                if i > 0 {
                    assert(s.drop_first()[i - 1] == s[i]);
                }
            }
        } else {
            assert forall|i: int|
                0 <= i < s.len() implies !name_eq_ci((#[trigger] s[i]).name, name) by {
                if i > 0 {
                    assert(s.drop_first()[i - 1] == s[i]);
                }
            }
        }
    }
}

/// How `add` updates an existing entry: flags accumulate; amounts are
/// replaced only when the command both touches the portfolio and carries
/// them.
pub open spec fn entry_added(t: TokenView, w: bool, p: bool, o: Option<int>, a: Option<int>)
    -> TokenView {
    TokenView {
        name: t.name,
        in_watchlist: t.in_watchlist || w,
        in_portfolio: t.in_portfolio || p,
        owned: if p && o is Some {
            o
        } else {
            t.owned
        },
        avg_buy_price: if p && a is Some {
            a
        } else {
            t.avg_buy_price
        },
    }
}

/// How `rm` strips an entry: named flags are cleared, and clearing the
/// portfolio also forgets the amounts.
pub open spec fn entry_removed(t: TokenView, w: bool, p: bool) -> TokenView {
    TokenView {
        name: t.name,
        in_watchlist: t.in_watchlist && !w,
        in_portfolio: t.in_portfolio && !p,
        owned: if p {
            None
        } else {
            t.owned
        },
        avg_buy_price: if p {
            None
        } else {
            t.avg_buy_price
        },
    }
}

/// The store after `add`: the first matching entry updated in place, or a
/// new entry appended; never a duplicate.
pub open spec fn add_applied(
    s: Seq<TokenView>,
    name: Seq<char>,
    w: bool,
    p: bool,
    o: Option<int>,
    a: Option<int>,
) -> Seq<TokenView> {
    let k = find_ci(s, name);
    if k >= 0 {
        s.update(k, entry_added(s[k], w, p, o, a))
    } else {
        s.push(TokenView { name, owned: o, avg_buy_price: a, in_watchlist: w, in_portfolio: p })
    }
}

/// An entry with a membership left.
pub open spec fn has_membership_v(t: TokenView) -> bool {
    t.in_watchlist || t.in_portfolio
}

/// The store-wide invariant's predicate, on ghost entries.
pub open spec fn membership_pred() -> spec_fn(TokenView) -> bool {
    |t: TokenView| has_membership_v(t)
}

/// The store-wide invariant's predicate, on stored entries.
pub open spec fn entry_keep_pred() -> spec_fn(TokenConfig) -> bool {
    |t: TokenConfig| t.in_watchlist || t.in_portfolio
}

/// The store after `rm`: the first matching entry stripped, then the
/// store-wide invariant re-applied — entries with neither membership are
/// deleted.
pub open spec fn rm_applied(s: Seq<TokenView>, name: Seq<char>, w: bool, p: bool) -> Seq<
    TokenView,
> {
    let k = find_ci(s, name);
    let s2 = if k >= 0 {
        s.update(k, entry_removed(s[k], w, p))
    } else {
        s
    };
    s2.filter(membership_pred())
}

/// What one parsed command does to the store; a rejected command does
/// nothing.
pub open spec fn command_applied(s: Seq<TokenView>, c: SpecCommand) -> Seq<TokenView> {
    match c {
        SpecCommand::Add { name, watchlist, portfolio, owned, avg_buy_price } => add_applied(
            s,
            name,
            watchlist,
            portfolio,
            owned,
            avg_buy_price,
        ),
        SpecCommand::Remove { name, watchlist, portfolio } => rm_applied(
            s,
            name,
            watchlist,
            portfolio,
        ),
        SpecCommand::Invalid(_) => s,
    }
}

/// The application state: configuration, the latest snapshot, view state
/// and the edit buffer, owned and mutated only here.
pub struct App {
    pub config: Config,
    pub selected: Option<usize>,
    pub crypto_data: Vec<CryptoData>,
    pub last_update: Option<i64>,
    pub last_error: Option<String>,
    pub fear_greed_data: Vec<FearGreedData>,
    pub tab: Tab,
    pub sort_column: SortColumn,
    pub sort_ascending: bool,
    pub portfolio_sort_column: SortColumn,
    pub input_mode: InputMode,
    pub input: String,
}

impl App {
    /// Configuration and snapshot values within the ranges the arithmetic
    /// is proved for.
    pub open spec fn wf(self) -> bool {
        &&& self.config.wf()
        &&& forall|i: int|
            0 <= i < self.crypto_data@.len() ==> (#[trigger] self.crypto_data@[i]).wf()
    }

    /// The current tab's row count: the watchlist and portfolio join row
    /// counts; the market placeholder has no rows.
    pub open spec fn row_count_spec(self) -> nat {
        match self.tab {
            Tab::Watchlist => watch_rows_spec(self.config.tokens@, self.crypto_data@).len(),
            Tab::Portfolio => portfolio_rows_spec(
                self.config.tokens@,
                self.crypto_data@,
            ).len(),
            Tab::Market => 0,
        }
    }

    pub fn new(config: Config) -> (app: App)
        ensures
            app.config == config,
            app.selected is None,
            app.crypto_data@.len() == 0,
            app.last_update is None,
            app.last_error is None,
            app.fear_greed_data@.len() == 0,
            app.tab == Tab::Watchlist,
            app.sort_column == SortColumn::MarketCap,
            app.sort_ascending == false,
            app.portfolio_sort_column == SortColumn::CurrentValue,
            app.input_mode == InputMode::Normal,
            app.input@.len() == 0,
    {
        App {
            config,
            selected: None,
            crypto_data: Vec::new(),
            last_update: None,
            last_error: None,
            fear_greed_data: Vec::new(),
            tab: Tab::Watchlist,
            sort_column: SortColumn::MarketCap,
            sort_ascending: false,
            portfolio_sort_column: SortColumn::CurrentValue,
            input_mode: InputMode::Normal,
            input: String::new(),
        }
    }

    /// Computes the current tab's row count.
    pub fn row_count(&self) -> (n: usize)
        requires
            self.wf(),
        ensures
            n == self.row_count_spec(),
    {
        match self.tab {
            Tab::Watchlist => crate::rows::watchlist_rows(&self.config, &self.crypto_data)
                .len(),
            Tab::Portfolio => crate::rows::portfolio_rows(&self.config, &self.crypto_data)
                .len(),
            Tab::Market => 0,
        }
    }

    pub fn enter_edit_mode(&mut self)
        ensures
            core_unchanged(*old(self), *final(self)),
            final(self).input_mode == InputMode::Editing,
            final(self).input@.len() == 0,
    {
        self.input_mode = InputMode::Editing;
        self.input = String::new();
    }

    pub fn exit_edit_mode(&mut self)
        ensures
            core_unchanged(*old(self), *final(self)),
            final(self).input_mode == InputMode::Normal,
            final(self).input@.len() == 0,
    {
        self.input_mode = InputMode::Normal;
        self.input = String::new();
    }

    /// Moves the selection down one row, wrapping past the end; with no
    /// rows there is nothing to select.
    pub fn next(&mut self)
        requires
            old(self).wf(),
        ensures
            sel_next_rel(*old(self), *final(self)),
    {
        let count = self.row_count();
        let sel = if count == 0 {
            None
        } else {
            match self.selected {
                None => Some(0usize),
                Some(i) => if i >= count - 1 {
                    Some(0usize)
                } else {
                    Some(i + 1)
                },
            }
        };
        self.selected = sel;
    }

    /// Moves the selection up one row, wrapping past the start; with no
    /// rows there is nothing to select.
    pub fn previous(&mut self)
        requires
            old(self).wf(),
        ensures
            sel_prev_rel(*old(self), *final(self)),
    {
        let count = self.row_count();
        let sel = if count == 0 {
            None
        } else {
            match self.selected {
                None => Some(0usize),
                Some(i) => if i == 0 {
                    Some(count - 1)
                } else {
                    Some(i - 1)
                },
            }
        };
        self.selected = sel;
    }

    /// Cycles the active tab.
    pub fn next_tab(&mut self)
        ensures
            tab_rel(*old(self), *final(self)),
    {
        self.tab = match self.tab {
            Tab::Watchlist => Tab::Portfolio,
            Tab::Portfolio => Tab::Market,
            Tab::Market => Tab::Watchlist,
        };
    }

    /// Flips the shared sort direction used by both sortable tabs.
    pub fn toggle_sort_direction(&mut self)
        ensures
            toggle_rel(*old(self), *final(self)),
    {
        self.sort_ascending = !self.sort_ascending;
    }

    /// Advances the active tab's sort column through its fixed cycle; the
    /// market tab has none.
    pub fn cycle_sort_column(&mut self)
        ensures
            cycle_rel(*old(self), *final(self)),
    {
        match self.tab {
            Tab::Watchlist => {
                self.sort_column = next_watch_column_exec(self.sort_column);
            },
            Tab::Portfolio => {
                self.portfolio_sort_column = next_portfolio_column_exec(
                    self.portfolio_sort_column,
                );
            },
            Tab::Market => {},
        }
    }

    /// Replaces the snapshot wholesale, records the refresh time, clears
    /// the sticky error, and clamps the selection to the new row count.
    pub fn apply_snapshot(&mut self, data: Vec<CryptoData>, now: i64)
        requires
            old(self).wf(),
            forall|i: int| 0 <= i < data@.len() ==> (#[trigger] data@[i]).wf(),
        ensures
            snapshot_rel(*old(self), *final(self), data, now),
            final(self).wf(),
    {
        self.crypto_data = data;
        self.last_update = Some(now);
        self.last_error = None;
        let count = self.row_count();
        self.selected = clamp_selection(self.selected, count);
    }

    /// Records a failed refresh: the stale snapshot is kept and the error
    /// becomes the sticky status text.
    pub fn apply_fetch_error(&mut self, msg: String)
        ensures
            error_rel(*old(self), *final(self), msg),
    {
        self.last_error = Some(msg);
    }
}

/// Clamps a selection to a row count: past-the-end selections move to the
/// last row, and an empty table has no selection.
pub open spec fn clamped(sel: Option<usize>, count: nat) -> Option<usize> {
    match sel {
        None => None,
        Some(i) => if count == 0 {
            None
        } else if i < count {
            Some(i)
        } else {
            Some((count - 1) as usize)
        },
    }
}

fn clamp_selection(sel: Option<usize>, count: usize) -> (r: Option<usize>)
    ensures
        r == clamped(sel, count as nat),
{
    match sel {
        None => None,
        Some(i) => if count == 0 {
            None
        } else if i < count {
            Some(i)
        } else {
            Some(count - 1)
        },
    }
}

/// The fields no navigation or edit-mode operation touches.
pub open spec fn core_unchanged(a: App, b: App) -> bool {
    &&& a.config == b.config
    &&& a.selected == b.selected
    &&& a.crypto_data == b.crypto_data
    &&& a.last_update == b.last_update
    &&& a.last_error == b.last_error
    &&& a.fear_greed_data == b.fear_greed_data
    &&& a.tab == b.tab
    &&& a.sort_column == b.sort_column
    &&& a.sort_ascending == b.sort_ascending
    &&& a.portfolio_sort_column == b.portfolio_sort_column
}

/// Everything but the selection unchanged.
pub open spec fn all_but_selection_unchanged(a: App, b: App) -> bool {
    &&& a.config == b.config
    &&& a.crypto_data == b.crypto_data
    &&& a.last_update == b.last_update
    &&& a.last_error == b.last_error
    &&& a.fear_greed_data == b.fear_greed_data
    &&& a.tab == b.tab
    &&& a.sort_column == b.sort_column
    &&& a.sort_ascending == b.sort_ascending
    &&& a.portfolio_sort_column == b.portfolio_sort_column
    &&& a.input_mode == b.input_mode
    &&& a.input == b.input
}

/// What `next` does: wrap-around downward over the current tab's rows.
pub open spec fn sel_next_rel(a: App, b: App) -> bool {
    &&& all_but_selection_unchanged(a, b)
    &&& b.selected == {
        let count = a.row_count_spec();
        if count == 0 {
            None::<usize>
        } else {
            match a.selected {
                None => Some(0usize),
                Some(i) => if i >= count - 1 {
                    Some(0usize)
                } else {
                    Some((i + 1) as usize)
                },
            }
        }
    }
}

/// What `previous` does: wrap-around upward over the current tab's rows.
pub open spec fn sel_prev_rel(a: App, b: App) -> bool {
    &&& all_but_selection_unchanged(a, b)
    &&& b.selected == {
        let count = a.row_count_spec();
        if count == 0 {
            None::<usize>
        } else {
            match a.selected {
                None => Some(0usize),
                Some(i) => if i == 0 {
                    Some((count - 1) as usize)
                } else {
                    Some((i - 1) as usize)
                },
            }
        }
    }
}

/// What `next_tab` does.
pub open spec fn tab_rel(a: App, b: App) -> bool {
    &&& b.tab == (match a.tab {
        Tab::Watchlist => Tab::Portfolio,
        Tab::Portfolio => Tab::Market,
        Tab::Market => Tab::Watchlist,
    })
    &&& b.config == a.config
    &&& b.selected == a.selected
    &&& b.crypto_data == a.crypto_data
    &&& b.last_update == a.last_update
    &&& b.last_error == a.last_error
    &&& b.fear_greed_data == a.fear_greed_data
    &&& b.sort_column == a.sort_column
    &&& b.sort_ascending == a.sort_ascending
    &&& b.portfolio_sort_column == a.portfolio_sort_column
    &&& b.input_mode == a.input_mode
    &&& b.input == a.input
}

/// What `toggle_sort_direction` does.
pub open spec fn toggle_rel(a: App, b: App) -> bool {
    &&& b.sort_ascending == !a.sort_ascending
    &&& b.config == a.config
    &&& b.selected == a.selected
    &&& b.crypto_data == a.crypto_data
    &&& b.last_update == a.last_update
    &&& b.last_error == a.last_error
    &&& b.fear_greed_data == a.fear_greed_data
    &&& b.tab == a.tab
    &&& b.sort_column == a.sort_column
    &&& b.portfolio_sort_column == a.portfolio_sort_column
    &&& b.input_mode == a.input_mode
    &&& b.input == a.input
}

/// The watchlist's fixed sort-column cycle.
pub open spec fn next_watch_column(c: SortColumn) -> SortColumn {
    match c {
        SortColumn::Symbol => SortColumn::Price,
        SortColumn::Price => SortColumn::Change1h,
        SortColumn::Change1h => SortColumn::Change24h,
        SortColumn::Change24h => SortColumn::Change7d,
        SortColumn::Change7d => SortColumn::Change30d,
        SortColumn::Change30d => SortColumn::Change90d,
        SortColumn::Change90d => SortColumn::Volume24h,
        SortColumn::Volume24h => SortColumn::VolumeChange,
        SortColumn::VolumeChange => SortColumn::MarketCap,
        SortColumn::MarketCap => SortColumn::Symbol,
        _ => SortColumn::Symbol,
    }
}

/// The portfolio's fixed sort-column cycle.
pub open spec fn next_portfolio_column(c: SortColumn) -> SortColumn {
    match c {
        SortColumn::Symbol => SortColumn::Price,
        SortColumn::Price => SortColumn::Holdings,
        SortColumn::Holdings => SortColumn::AvgBuy,
        SortColumn::AvgBuy => SortColumn::CurrentValue,
        SortColumn::CurrentValue => SortColumn::CostBasis,
        SortColumn::CostBasis => SortColumn::ProfitLoss,
        SortColumn::ProfitLoss => SortColumn::ProfitLossPercent,
        SortColumn::ProfitLossPercent => SortColumn::Change24h,
        SortColumn::Change24h => SortColumn::Symbol,
        _ => SortColumn::Symbol,
    }
}

fn next_watch_column_exec(c: SortColumn) -> (r: SortColumn)
    ensures
        r == next_watch_column(c),
{
    match c {
        SortColumn::Symbol => SortColumn::Price,
        SortColumn::Price => SortColumn::Change1h,
        SortColumn::Change1h => SortColumn::Change24h,
        SortColumn::Change24h => SortColumn::Change7d,
        SortColumn::Change7d => SortColumn::Change30d,
        SortColumn::Change30d => SortColumn::Change90d,
        SortColumn::Change90d => SortColumn::Volume24h,
        SortColumn::Volume24h => SortColumn::VolumeChange,
        SortColumn::VolumeChange => SortColumn::MarketCap,
        SortColumn::MarketCap => SortColumn::Symbol,
        _ => SortColumn::Symbol,
    }
}

fn next_portfolio_column_exec(c: SortColumn) -> (r: SortColumn)
    ensures
        r == next_portfolio_column(c),
{
    match c {
        SortColumn::Symbol => SortColumn::Price,
        SortColumn::Price => SortColumn::Holdings,
        SortColumn::Holdings => SortColumn::AvgBuy,
        SortColumn::AvgBuy => SortColumn::CurrentValue,
        SortColumn::CurrentValue => SortColumn::CostBasis,
        SortColumn::CostBasis => SortColumn::ProfitLoss,
        SortColumn::ProfitLoss => SortColumn::ProfitLossPercent,
        SortColumn::ProfitLossPercent => SortColumn::Change24h,
        SortColumn::Change24h => SortColumn::Symbol,
        _ => SortColumn::Symbol,
    }
}

/// What `cycle_sort_column` does: the active tab's column advances through
/// its own cycle; nothing else moves.
pub open spec fn cycle_rel(a: App, b: App) -> bool {
    &&& b.sort_column == (if a.tab is Watchlist {
        next_watch_column(a.sort_column)
    } else {
        a.sort_column
    })
    &&& b.portfolio_sort_column == (if a.tab is Portfolio {
        next_portfolio_column(a.portfolio_sort_column)
    } else {
        a.portfolio_sort_column
    })
    &&& b.config == a.config
    &&& b.selected == a.selected
    &&& b.crypto_data == a.crypto_data
    &&& b.last_update == a.last_update
    &&& b.last_error == a.last_error
    &&& b.fear_greed_data == a.fear_greed_data
    &&& b.tab == a.tab
    &&& b.sort_ascending == a.sort_ascending
    &&& b.input_mode == a.input_mode
    &&& b.input == a.input
}

/// What a successful refresh does: the snapshot replaced wholesale, the
/// time recorded, the sticky error cleared, the selection clamped.
pub open spec fn snapshot_rel(a: App, b: App, data: Vec<CryptoData>, now: i64) -> bool {
    &&& b.crypto_data == data
    &&& b.last_update == Some(now)
    &&& b.last_error is None
    &&& b.selected == clamped(a.selected, b.row_count_spec())
    &&& b.config == a.config
    &&& b.fear_greed_data == a.fear_greed_data
    &&& b.tab == a.tab
    &&& b.sort_column == a.sort_column
    &&& b.sort_ascending == a.sort_ascending
    &&& b.portfolio_sort_column == a.portfolio_sort_column
    &&& b.input_mode == a.input_mode
    &&& b.input == a.input
}

/// What a failed refresh does: only the sticky error changes; the stale
/// snapshot stays, preferred over blanking the display.
pub open spec fn error_rel(a: App, b: App, msg: String) -> bool {
    &&& b.last_error == Some(msg)
    &&& b.config == a.config
    &&& b.selected == a.selected
    &&& b.crypto_data == a.crypto_data
    &&& b.last_update == a.last_update
    &&& b.fear_greed_data == a.fear_greed_data
    &&& b.tab == a.tab
    &&& b.sort_column == a.sort_column
    &&& b.sort_ascending == a.sort_ascending
    &&& b.portfolio_sort_column == a.portfolio_sort_column
    &&& b.input_mode == a.input_mode
    &&& b.input == a.input
}


/// No entry lacks both memberships.
pub open spec fn no_zombies_v(s: Seq<TokenView>) -> bool {
    forall|i: int| 0 <= i < s.len() ==> has_membership_v(#[trigger] s[i])
}

/// An `add` that grants at least one membership — every command the parser
/// produces does.
pub open spec fn cmd_grants_membership(c: SpecCommand) -> bool {
    c matches SpecCommand::Add { watchlist, portfolio, .. } ==> (watchlist || portfolio)
}

/// An `add` whose amounts lie in the fixed-point range — every command the
/// parser produces does.
pub open spec fn cmd_amounts_in_range(c: SpecCommand) -> bool {
    c matches SpecCommand::Add { owned, avg_buy_price, .. } ==> {
        &&& (owned is Some ==> 0 <= owned->0 <= MAX_MONEY)
        &&& (avg_buy_price is Some ==> 0 <= avg_buy_price->0 <= MAX_MONEY)
    }
}

/// A filter of elements that all pass is the sequence itself.
pub proof fn lemma_filter_all<A>(s: Seq<A>, pred: spec_fn(A) -> bool)
    requires
        forall|i: int| 0 <= i < s.len() ==> pred(#[trigger] s[i]),
    ensures
        s.filter(pred) == s,
    decreases s.len(),
{
    reveal(Seq::filter);
    if s.len() > 0 {
        assert(forall|i: int| 0 <= i < s.len() - 1 ==> s.drop_last()[i] == #[trigger] s[i]);
        lemma_filter_all(s.drop_last(), pred);
        assert(s.filter(pred) =~= s);
    }
}

/// A filter that drops exactly one element is a removal.
pub proof fn lemma_filter_one_out<A>(s: Seq<A>, pred: spec_fn(A) -> bool, k: int)
    requires
        0 <= k < s.len(),
        forall|i: int| 0 <= i < s.len() && i != k ==> pred(#[trigger] s[i]),
        !pred(s[k]),
    ensures
        s.filter(pred) == s.remove(k),
    decreases s.len(),
{
    reveal(Seq::filter);
    assert(forall|i: int| 0 <= i < s.len() - 1 ==> s.drop_last()[i] == #[trigger] s[i]);
    if k == s.len() - 1 {
        lemma_filter_all(s.drop_last(), pred);
        assert(s.filter(pred) =~= s.remove(k));
    } else {
        lemma_filter_one_out(s.drop_last(), pred, k);
        assert(s.filter(pred) =~= s.remove(k));
    }
}

/// One command preserves the store-wide invariant: no sequence of `add`
/// and `rm` commands can leave an entry with neither membership.
pub proof fn lemma_no_zombies_preserved(s: Seq<TokenView>, c: SpecCommand)
    requires
        no_zombies_v(s),
        cmd_grants_membership(c),
    ensures
        no_zombies_v(command_applied(s, c)),
{
    broadcast use vstd::seq_lib::group_filter_ensures;

    match c {
        SpecCommand::Add { name, watchlist, portfolio, owned, avg_buy_price } => {
            let k = find_ci(s, name);
            lemma_find_ci(s, name);
            let out = command_applied(s, c);
            assert forall|i: int| 0 <= i < out.len() implies has_membership_v(
                #[trigger] out[i],
            ) by {
                if k >= 0 {
                    assert(has_membership_v(s[k]));
                    if i != k {
                        assert(out[i] == s[i]);
                    }
                } else {
                    if i < s.len() {
                        assert(out[i] == s[i]);
                    }
                }
            }
        },
        SpecCommand::Remove { name, watchlist, portfolio } => {
            let out = command_applied(s, c);
            assert forall|i: int| 0 <= i < out.len() implies has_membership_v(
                #[trigger] out[i],
            ) by {
                let kk = find_ci(s, name);
                let s2 = if kk >= 0 {
                    s.update(kk, entry_removed(s[kk], watchlist, portfolio))
                } else {
                    s
                };
                s2.lemma_filter_pred(membership_pred(), i);
                assert(membership_pred()(out[i]));
            }
        },
        SpecCommand::Invalid(_) => {},
    }
}

/// The store after a whole sequence of commands.
pub open spec fn commands_applied(s: Seq<TokenView>, cs: Seq<SpecCommand>) -> Seq<TokenView>
    decreases cs.len(),
{
    if cs.len() == 0 {
        s
    } else {
        command_applied(commands_applied(s, cs.drop_last()), cs.last())
    }
}

/// The store-wide invariant holds after any sequence of parsed commands:
/// an entry with neither membership never exists in the store.
pub proof fn lemma_no_zombies_after(s: Seq<TokenView>, cs: Seq<SpecCommand>)
    requires
        no_zombies_v(s),
        forall|i: int| 0 <= i < cs.len() ==> cmd_grants_membership(#[trigger] cs[i]),
    ensures
        no_zombies_v(commands_applied(s, cs)),
    decreases cs.len(),
{
    if cs.len() > 0 {
        assert(forall|i: int| 0 <= i < cs.len() - 1 ==> cs.drop_last()[i] == #[trigger] cs[i]);
        lemma_no_zombies_after(s, cs.drop_last());
        lemma_no_zombies_preserved(commands_applied(s, cs.drop_last()), cs.last());
    }
}

/// `rm` without flags clears both memberships: the named entry, if
/// present, falls to the store-wide invariant and is removed entirely;
/// with no match the store is untouched.
pub proof fn lemma_rm_without_flags(s: Seq<TokenView>, name: Seq<char>)
    requires
        no_zombies_v(s),
    ensures
        find_ci(s, name) < 0 ==> rm_applied(s, name, true, true) == s,
        find_ci(s, name) >= 0 ==> rm_applied(s, name, true, true) == s.remove(
            find_ci(s, name),
        ),
{
    let k = find_ci(s, name);
    lemma_find_ci(s, name);
    let pred = membership_pred();
    if k < 0 {
        lemma_filter_all(s, pred);
    } else {
        let s2 = s.update(k, entry_removed(s[k], true, true));
        assert(!pred(s2[k]));
        assert(forall|i: int| 0 <= i < s2.len() && i != k ==> pred(#[trigger] s2[i]));
        lemma_filter_one_out(s2, pred, k);
        assert(s2.remove(k) =~= s.remove(k));
    }
}

/// The commands the parser can produce grant membership on `add` and carry
/// in-range amounts.
pub proof fn lemma_parsed_command_wf(input: Seq<char>)
    ensures
        cmd_grants_membership(command_of(input)),
        cmd_amounts_in_range(command_of(input)),
{
    let toks = crate::command::tokens_of(input);
    if toks.len() > 0 && toks[0] == "add"@ && toks.len() >= 2 {
        lemma_add_flags_wf(toks, 2, false, false, None, None);
    } else if toks.len() >= 2 && !(toks[0] == "add"@) && toks[0] == "rm"@ {
        lemma_rm_flags_not_add(toks, 2, false, false);
    }
}

/// `rm`'s flag fold never yields an addition.
proof fn lemma_rm_flags_not_add(toks: Seq<Seq<char>>, i: int, w: bool, p: bool)
    requires
        2 <= i,
    ensures
        !(crate::command::rm_flags(toks, i, w, p) matches SpecCommand::Add { .. }),
    decreases toks.len() - i,
{
    if i >= toks.len() {
    } else if toks[i] == "-w"@ {
        lemma_rm_flags_not_add(toks, i + 1, true, p);
    } else if toks[i] == "-p"@ {
        lemma_rm_flags_not_add(toks, i + 1, w, true);
    } else if toks[i] == "-wp"@ || toks[i] == "-pw"@ {
        lemma_rm_flags_not_add(toks, i + 1, true, true);
    }
}

proof fn lemma_add_flags_wf(
    toks: Seq<Seq<char>>,
    i: int,
    w: bool,
    p: bool,
    o: Option<int>,
    a: Option<int>,
)
    requires
        2 <= i,
        o is Some ==> 0 <= o->0 <= MAX_MONEY,
        a is Some ==> 0 <= a->0 <= MAX_MONEY,
    ensures
        cmd_grants_membership(crate::command::add_flags(toks, i, w, p, o, a)),
        cmd_amounts_in_range(crate::command::add_flags(toks, i, w, p, o, a)),
    decreases toks.len() - i,
{
    if i >= toks.len() {
    } else if toks[i] == "-w"@ {
        lemma_add_flags_wf(toks, i + 1, true, p, o, a);
    } else if toks[i] == "-p"@ || toks[i] == "-wp"@ || toks[i] == "-pw"@ {
        let w2 = if toks[i] == "-p"@ {
            w
        } else {
            true
        };
        if i + 2 < toks.len() {
            crate::decimal::lemma_amount_bounds(toks[i + 1]);
            crate::decimal::lemma_amount_bounds(toks[i + 2]);
            lemma_add_flags_wf(
                toks,
                i + 3,
                w2,
                true,
                crate::decimal::amount_of(toks[i + 1]),
                crate::decimal::amount_of(toks[i + 2]),
            );
        } else {
            lemma_add_flags_wf(toks, i + 1, w2, true, o, a);
        }
    }
}

/// What applying one already-parsed command does to the whole state.
pub open spec fn apply_rel(a: App, b: App, cmd: Command, persist: bool) -> bool {
    match cmd {
        Command::Add { name, watchlist, portfolio, owned, avg_buy_price } => {
            &&& persist
            &&& store_view(b.config.tokens@) == add_applied(
                store_view(a.config.tokens@),
                name@,
                watchlist,
                portfolio,
                as_int_opt(owned),
                as_int_opt(avg_buy_price),
            )
            &&& config_rest_unchanged(a, b)
            &&& b.selected == clamped(a.selected, b.row_count_spec())
            &&& app_rest_unchanged(a, b)
            &&& b.last_error == a.last_error
        },
        Command::Remove { name, watchlist, portfolio } => {
            &&& persist
            &&& store_view(b.config.tokens@) == rm_applied(
                store_view(a.config.tokens@),
                name@,
                watchlist,
                portfolio,
            )
            &&& config_rest_unchanged(a, b)
            &&& b.selected == clamped(a.selected, b.row_count_spec())
            &&& app_rest_unchanged(a, b)
            &&& b.last_error == a.last_error
        },
        Command::Invalid(msg) => {
            &&& !persist
            &&& b.last_error == Some(msg)
            &&& b.config == a.config
            &&& b.selected == a.selected
            &&& app_rest_unchanged(a, b)
        },
    }
}

/// Configuration fields other than the entry list.
pub open spec fn config_rest_unchanged(a: App, b: App) -> bool {
    &&& b.config.api_key == a.config.api_key
    &&& b.config.refresh_interval == a.config.refresh_interval
    &&& b.config.fear_and_greed_limit == a.config.fear_and_greed_limit
}

/// Application fields no command touches.
pub open spec fn app_rest_unchanged(a: App, b: App) -> bool {
    &&& b.crypto_data == a.crypto_data
    &&& b.last_update == a.last_update
    &&& b.fear_greed_data == a.fear_greed_data
    &&& b.tab == a.tab
    &&& b.sort_column == a.sort_column
    &&& b.sort_ascending == a.sort_ascending
    &&& b.portfolio_sort_column == a.portfolio_sort_column
    &&& b.input_mode == a.input_mode
    &&& b.input == a.input
}

impl App {
    /// Finds the entry matching a name case-insensitively.
    fn find_entry(&self, name: &str) -> (r: Option<usize>)
        ensures
            r is Some ==> r->0 as int == find_ci(store_view(self.config.tokens@), name@),
            r is None ==> find_ci(store_view(self.config.tokens@), name@) < 0,
    {
        proof {
            lemma_find_ci(store_view(self.config.tokens@), name@);
        }
        let tokens = &self.config.tokens;
        let mut i: usize = 0;
        while i < tokens.len()
            invariant
                i <= tokens@.len(),
                tokens@ == self.config.tokens@,
                forall|j: int|
                    0 <= j < i ==> !name_eq_ci(
                        (#[trigger] store_view(self.config.tokens@)[j]).name,
                        name@,
                    ),
            decreases tokens@.len() - i,
        {
            proof {
                assert(store_view(self.config.tokens@)[i as int].name
                    == self.config.tokens@[i as int].name@);
            }
            if crate::text::eq_ci(tokens[i].name.as_str(), name) {
                proof {
                    lemma_find_ci(store_view(self.config.tokens@), name@);
                }
                return Some(i);
            }
            i = i + 1;
        }
        proof {
            lemma_find_ci(store_view(self.config.tokens@), name@);
        }
        None
    }

    /// Applies one parsed command to the store: `add` updates the first
    /// matching entry in place or appends a new one, `rm` strips the first
    /// matching entry and re-applies the store-wide invariant, a rejected
    /// command only records its message. Returns whether the store changed
    /// and is owed persistence.
    #[verifier::rlimit(100)]
    pub fn apply_command(&mut self, cmd: Command) -> (persist: bool)
        requires
            old(self).wf(),
            cmd matches Command::Add { owned, avg_buy_price, .. } ==> {
                &&& (owned is Some ==> 0 <= owned->0 <= MAX_MONEY)
                &&& (avg_buy_price is Some ==> 0 <= avg_buy_price->0 <= MAX_MONEY)
            },
        ensures
            apply_rel(*old(self), *final(self), cmd, persist),
            final(self).wf(),
    {
        match cmd {
            Command::Add { name, watchlist, portfolio, owned, avg_buy_price } => {
                let ghost pre = store_view(self.config.tokens@);
                proof {
                    lemma_find_ci(pre, name@);
                }
                match self.find_entry(name.as_str()) {
                    Some(k) => {
                        if watchlist {
                            self.config.tokens[k].in_watchlist = true;
                        }
                        if portfolio {
                            self.config.tokens[k].in_portfolio = true;
                            if let Some(o) = owned {
                                self.config.tokens[k].owned = Some(o);
                            }
                            if let Some(p) = avg_buy_price {
                                self.config.tokens[k].avg_buy_price = Some(p);
                            }
                        }
                        proof {
                            assert(store_view(self.config.tokens@) =~= pre.update(
                                k as int,
                                entry_added(
                                    pre[k as int],
                                    watchlist,
                                    portfolio,
                                    as_int_opt(owned),
                                    as_int_opt(avg_buy_price),
                                ),
                            ));
                        }
                    },
                    None => {
                        let entry = TokenConfig {
                            name,
                            owned,
                            avg_buy_price,
                            in_watchlist: watchlist,
                            in_portfolio: portfolio,
                        };
                        self.config.tokens.push(entry);
                        proof {
                            assert(store_view(self.config.tokens@) =~= pre.push(
                                TokenView {
                                    name: entry.name@,
                                    owned: as_int_opt(owned),
                                    avg_buy_price: as_int_opt(avg_buy_price),
                                    in_watchlist: watchlist,
                                    in_portfolio: portfolio,
                                },
                            ));
                        }
                    },
                }
                let count = self.row_count();
                self.selected = clamp_selection(self.selected, count);
                true
            },
            Command::Remove { name, watchlist, portfolio } => {
                let ghost pre = store_view(self.config.tokens@);
                proof {
                    lemma_find_ci(pre, name@);
                }
                match self.find_entry(name.as_str()) {
                    Some(k) => {
                        if watchlist {
                            self.config.tokens[k].in_watchlist = false;
                        }
                        if portfolio {
                            self.config.tokens[k].in_portfolio = false;
                            self.config.tokens[k].owned = None;
                            self.config.tokens[k].avg_buy_price = None;
                        }
                        proof {
                            assert(store_view(self.config.tokens@) =~= pre.update(
                                k as int,
                                entry_removed(pre[k as int], watchlist, portfolio),
                            ));
                            assert(forall|j: int|
                                0 <= j < self.config.tokens@.len() ==> (
                                #[trigger] self.config.tokens@[j]).wf());
                        }
                    },
                    None => {
                        proof {
                            assert(store_view(self.config.tokens@) =~= pre);
                        }
                    },
                }
                self.retain_members();
                proof {
                    assert(store_view(self.config.tokens@) == rm_applied(
                        pre,
                        name@,
                        watchlist,
                        portfolio,
                    ));
                }
                let count = self.row_count();
                self.selected = clamp_selection(self.selected, count);
                true
            },
            Command::Invalid(msg) => {
                self.last_error = Some(msg);
                false
            },
        }
    }

    /// Deletes every entry whose memberships are both clear, in place.
    #[verifier::rlimit(60)]
    fn retain_members(&mut self)
        requires
            old(self).config.wf(),
        ensures
            final(self).config.tokens@ == old(self).config.tokens@.filter(
                entry_keep_pred(),
            ),
            store_view(final(self).config.tokens@) == store_view(
                old(self).config.tokens@,
            ).filter(membership_pred()),
            final(self).config.wf(),
            config_rest_unchanged(*old(self), *final(self)),
            final(self).selected == old(self).selected,
            app_rest_unchanged(*old(self), *final(self)),
            final(self).last_error == old(self).last_error,
    {
        let ghost orig = self.config.tokens@;
        let ghost pred = entry_keep_pred();
        let mut i: usize = 0;
        let ghost mut processed: int = 0;
        while i < self.config.tokens.len()
            invariant
                old(self).config.wf(),
                orig == old(self).config.tokens@,
                pred == entry_keep_pred(),
                0 <= i <= self.config.tokens@.len(),
                i <= processed <= orig.len(),
                self.config.tokens@.skip(i as int) =~= orig.skip(processed),
                self.config.tokens@.take(i as int) =~= orig.take(processed).filter(pred),
                config_rest_unchanged(*old(self), *self),
                self.selected == old(self).selected,
                app_rest_unchanged(*old(self), *self),
                self.last_error == old(self).last_error,
            decreases orig.len() - processed,
        {
            let ghost before = self.config.tokens@;
            proof {
                reveal(Seq::filter);
                assert(0 <= i < before.len());
                assert(before.skip(i as int).len() == before.len() - i);
                assert(before.skip(i as int) == orig.skip(processed));
                assert(orig.skip(processed).len() == orig.len() - processed);
                assert(processed < orig.len());
                assert(before.skip(i as int)[0] == before[i as int]);
                assert(orig.skip(processed)[0] == orig[processed]);
                assert(before[i as int] == orig[processed]);
                assert(orig.take(processed + 1).drop_last() =~= orig.take(processed));
                assert(orig.take(processed + 1).last() == orig[processed]);
            }
            let keep = self.config.tokens[i].in_watchlist || self.config.tokens[i]
                .in_portfolio;
            if keep {
                i = i + 1;
                proof {
                    assert(self.config.tokens@.take(i as int) =~= before.take(
                        i as int - 1,
                    ).push(orig[processed]));
                    assert(self.config.tokens@.take(i as int) =~= orig.take(
                        processed + 1,
                    ).filter(pred));
                    assert forall|j: int|
                        0 <= j < self.config.tokens@.len() - i implies self.config.tokens@.skip(
                        i as int,
                    )[j] == orig.skip(processed + 1)[j] by {
                        assert(self.config.tokens@.skip(i as int)[j] == before[i + j]);
                        assert(before.skip(i as int - 1)[1 + j] == before[i + j]);
                        assert(orig.skip(processed)[1 + j] == orig[processed + 1 + j]);
                        assert(orig.skip(processed + 1)[j] == orig[processed + 1 + j]);
                    }
                    assert(self.config.tokens@.skip(i as int) =~= orig.skip(processed + 1));
                }
            } else {
                self.config.tokens.remove(i);
                proof {
                    assert(self.config.tokens@ == before.remove(i as int));
                    assert(self.config.tokens@.take(i as int) =~= before.take(i as int));
                    assert(self.config.tokens@.take(i as int) =~= orig.take(
                        processed + 1,
                    ).filter(pred));
                    assert forall|j: int|
                        0 <= j < self.config.tokens@.len() - i implies self.config.tokens@.skip(
                        i as int,
                    )[j] == orig.skip(processed + 1)[j] by {
                        assert(self.config.tokens@.skip(i as int)[j] == before[i + 1 + j]);
                        assert(before.skip(i as int)[1 + j] == before[i + 1 + j]);
                        assert(orig.skip(processed)[1 + j] == orig[processed + 1 + j]);
                    }
                    assert(self.config.tokens@.skip(i as int) =~= orig.skip(processed + 1));
                }
            }
            proof {
                processed = processed + 1;
            }
        }
        proof {
            assert(self.config.tokens@.skip(i as int).len() == 0);
            assert(processed == orig.len());
            assert(orig.take(processed) =~= orig);
            assert(self.config.tokens@.take(i as int) =~= self.config.tokens@);
            lemma_store_view_filter(orig);
            assert forall|j: int|
                0 <= j < self.config.tokens@.len() implies (
            #[trigger] self.config.tokens@[j]).wf() by {
                let x = self.config.tokens@[j];
                assert(orig.filter(pred).contains(x)) by {
                    assert(orig.filter(pred)[j] == x);
                }
                orig.lemma_filter_contains_rev(pred, x);
                let w = choose|w: int| 0 <= w < orig.len() && orig[w] == x;
                assert(orig[w].wf());
            }
        }
    }
}

/// Filtering the store commutes with taking its ghost view.
pub proof fn lemma_store_view_filter(s: Seq<TokenConfig>)
    ensures
        store_view(s.filter(entry_keep_pred())) == store_view(s).filter(membership_pred()),
    decreases s.len(),
{
    reveal(Seq::filter);
    if s.len() == 0 {
        assert(store_view(s.filter(entry_keep_pred())) =~= store_view(s).filter(
            membership_pred(),
        ));
    } else {
        lemma_store_view_filter(s.drop_last());
        assert(store_view(s).drop_last() =~= store_view(s.drop_last()));
        assert(store_view(s.filter(entry_keep_pred())) =~= store_view(s).filter(
            membership_pred(),
        ));
    }
}


/// Keys as the state machine sees them; the input loop translates raw
/// terminal events into these.
#[derive(PartialEq, Eq, Structural, Clone, Copy, Debug)]
pub enum KeyInput {
    Char(char),
    Up,
    Down,
    TabKey,
    Enter,
    Esc,
    Backspace,
    Other,
}

/// What the caller owes after a key was handled: nothing, shutting down,
/// a refresh, or persisting the store and then refreshing.
#[derive(PartialEq, Eq, Structural, Clone, Copy, Debug)]
pub enum UiAction {
    Continue,
    Quit,
    Refresh,
    PersistAndRefresh,
}

/// What submitting the edit buffer does: the buffer's command is parsed
/// and applied to the store, the buffer is cleared and the mode returns to
/// normal. A rejected command only records its message; a mutation clamps
/// the selection and owes persistence and a refresh.
pub open spec fn submit_rel(a: App, b: App, act: UiAction) -> bool {
    let c = command_of(a.input@);
    &&& b.input_mode == InputMode::Normal
    &&& b.input@.len() == 0
    &&& store_view(b.config.tokens@) == command_applied(store_view(a.config.tokens@), c)
    &&& b.crypto_data == a.crypto_data
    &&& b.last_update == a.last_update
    &&& b.fear_greed_data == a.fear_greed_data
    &&& b.tab == a.tab
    &&& b.sort_column == a.sort_column
    &&& b.sort_ascending == a.sort_ascending
    &&& b.portfolio_sort_column == a.portfolio_sort_column
    &&& match c {
        SpecCommand::Invalid(k) => {
            &&& act == UiAction::Continue
            &&& b.config == a.config
            &&& b.selected == a.selected
            &&& b.last_error matches Some(m) && m@ == invalid_text(k)
        },
        _ => {
            &&& act == UiAction::PersistAndRefresh
            &&& config_rest_unchanged(a, b)
            &&& b.selected == clamped(a.selected, b.row_count_spec())
            &&& b.last_error == a.last_error
        },
    }
}

/// What one key does, given the mode: in normal mode the navigation,
/// sorting, refresh and edit-entry bindings; in edit mode text entry,
/// cancellation, and submission.
pub open spec fn handle_rel(a: App, b: App, key: KeyInput, act: UiAction) -> bool {
    match a.input_mode {
        InputMode::Normal => match key {
            KeyInput::Char(c) => if c == 'q' {
                b == a && act == UiAction::Quit
            } else if c == 'j' {
                sel_next_rel(a, b) && act == UiAction::Continue
            } else if c == 'k' {
                sel_prev_rel(a, b) && act == UiAction::Continue
            } else if c == 'r' {
                b == a && act == UiAction::Refresh
            } else if c == 'd' {
                toggle_rel(a, b) && act == UiAction::Continue
            } else if c == 's' {
                cycle_rel(a, b) && act == UiAction::Continue
            } else if c == 'e' {
                core_unchanged(a, b) && b.input_mode == InputMode::Editing && b.input@.len()
                    == 0 && act == UiAction::Continue
            } else {
                b == a && act == UiAction::Continue
            },
            KeyInput::Down => sel_next_rel(a, b) && act == UiAction::Continue,
            KeyInput::Up => sel_prev_rel(a, b) && act == UiAction::Continue,
            KeyInput::TabKey => tab_rel(a, b) && act == UiAction::Continue,
            _ => b == a && act == UiAction::Continue,
        },
        InputMode::Editing => match key {
            KeyInput::Enter => submit_rel(a, b, act),
            KeyInput::Esc => core_unchanged(a, b) && b.input_mode == InputMode::Normal
                && b.input@.len() == 0 && act == UiAction::Continue,
            KeyInput::Char(c) => core_unchanged(a, b) && b.input_mode == a.input_mode
                && b.input@ == a.input@.push(c) && act == UiAction::Continue,
            KeyInput::Backspace => core_unchanged(a, b) && b.input_mode == a.input_mode
                && b.input@ == (if a.input@.len() == 0 {
                a.input@
            } else {
                a.input@.drop_last()
            }) && act == UiAction::Continue,
            _ => b == a && act == UiAction::Continue,
        },
    }
}

impl App {
    /// Parses the edit buffer and applies the resulting command to the
    /// store. Returns whether the store changed and is owed persistence.
    pub fn process_command(&mut self) -> (persist: bool)
        requires
            old(self).wf(),
        ensures
            final(self).wf(),
            persist == !(command_of(old(self).input@) matches SpecCommand::Invalid(_)),
            store_view(final(self).config.tokens@) == command_applied(
                store_view(old(self).config.tokens@),
                command_of(old(self).input@),
            ),
            app_rest_unchanged(*old(self), *final(self)),
            match command_of(old(self).input@) {
                SpecCommand::Invalid(k) => {
                    &&& final(self).config == old(self).config
                    &&& final(self).selected == old(self).selected
                    &&& final(self).last_error matches Some(m)
                    &&& m@ == invalid_text(k)
                },
                _ => {
                    &&& config_rest_unchanged(*old(self), *final(self))
                    &&& final(self).selected == clamped(
                        old(self).selected,
                        final(self).row_count_spec(),
                    )
                    &&& final(self).last_error == old(self).last_error
                },
            },
    {
        proof {
            lemma_parsed_command_wf(self.input@);
        }
        let cmd = parse_command(self.input.as_str());
        self.apply_command(cmd)
    }

    /// Dispatches one key according to the current mode and returns what
    /// the caller owes: the whole key-binding table of the interface.
    pub fn handle_key(&mut self, key: KeyInput) -> (act: UiAction)
        requires
            old(self).wf(),
        ensures
            final(self).wf(),
            handle_rel(*old(self), *final(self), key, act),
    {
        match self.input_mode {
            InputMode::Normal => {
                match key {
                    KeyInput::Char(c) => {
                        if c == 'q' {
                            UiAction::Quit
                        } else if c == 'j' {
                            self.next();
                            UiAction::Continue
                        } else if c == 'k' {
                            self.previous();
                            UiAction::Continue
                        } else if c == 'r' {
                            UiAction::Refresh
                        } else if c == 'd' {
                            self.toggle_sort_direction();
                            UiAction::Continue
                        } else if c == 's' {
                            self.cycle_sort_column();
                            UiAction::Continue
                        } else if c == 'e' {
                            self.enter_edit_mode();
                            UiAction::Continue
                        } else {
                            UiAction::Continue
                        }
                    },
                    KeyInput::Down => {
                        self.next();
                        UiAction::Continue
                    },
                    KeyInput::Up => {
                        self.previous();
                        UiAction::Continue
                    },
                    KeyInput::TabKey => {
                        self.next_tab();
                        UiAction::Continue
                    },
                    _ => UiAction::Continue,
                }
            },
            InputMode::Editing => {
                match key {
                    KeyInput::Enter => {
                        let persist = self.process_command();
                        self.exit_edit_mode();
                        if persist {
                            UiAction::PersistAndRefresh
                        } else {
                            UiAction::Continue
                        }
                    },
                    KeyInput::Esc => {
                        self.exit_edit_mode();
                        UiAction::Continue
                    },
                    KeyInput::Char(c) => {
                        push_char(&mut self.input, c);
                        UiAction::Continue
                    },
                    KeyInput::Backspace => {
                        crate::text::pop_char(&mut self.input);
                        UiAction::Continue
                    },
                    _ => UiAction::Continue,
                }
            },
        }
    }
}


impl App {
    /// The watchlist table as drawn: snapshot entries that a watchlist
    /// token matches, sorted by the active column and shared direction.
    pub fn watch_table(&self) -> (rows: Vec<crate::rows::Row>)
        requires
            self.wf(),
        ensures
            crate::sort::sorted_rows(rows@, self.sort_column, self.sort_ascending),
            rows@.to_multiset() == watch_rows_spec(
                self.config.tokens@,
                self.crypto_data@,
            ).to_multiset(),
    {
        let rows = crate::rows::watchlist_rows(&self.config, &self.crypto_data);
        crate::sort::sort_rows(rows, self.sort_column, self.sort_ascending)
    }

    /// The portfolio table as drawn: portfolio entries joined with their
    /// quotes, sorted by the portfolio column and shared direction.
    pub fn portfolio_table(&self) -> (rows: Vec<crate::rows::Row>)
        requires
            self.wf(),
        ensures
            crate::sort::sorted_rows(rows@, self.portfolio_sort_column, self.sort_ascending),
            rows@.to_multiset() == portfolio_rows_spec(
                self.config.tokens@,
                self.crypto_data@,
            ).to_multiset(),
    {
        let rows = crate::rows::portfolio_rows(&self.config, &self.crypto_data);
        crate::sort::sort_rows(rows, self.portfolio_sort_column, self.sort_ascending)
    }
}

} // verus!
