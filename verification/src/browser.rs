use crate::config::Config;
use crate::entry::Entry;
use crate::entry::EntryModel;
use crate::entry::entry_models;
use crate::entry::entry_order;
use crate::entry::is_parent_model;
use crate::entry::snapshot_wf;
use crate::entry::sort_entries;
use crate::fuzzy::SearchResult;
use crate::mode::Mode;
use crate::preview::preview_of;
use crate::preview::render_preview;
use crate::rank::compute_ranked;
use crate::rank::lemma_ranked_spec_props;
use crate::rank::rank_models;
use crate::rank::ranked_spec;
use crate::strutil::eq_str;
use crate::strutil::pop_char;
use crate::strutil::push_char;
use vstd::prelude::*;
use vstd::relations::sorted_by;
use vstd::string::StringExecFns;

verus! {

broadcast use {vstd::seq_lib::group_to_multiset_ensures, vstd::multiset::group_multiset_axioms};

/// What activating the highlighted row decides: nothing was highlighted, a
/// file was chosen (the session's result), or the session should move into
/// a directory or back up to the parent.
pub enum Selection {
    NoSelection,
    File(String),
    Directory(String),
    Parent,
}

/// The mathematical value of a [`Selection`].
pub ghost enum SelectionModel {
    NoSelection,
    File(Seq<char>),
    Directory(Seq<char>),
    Parent,
}

impl View for Selection {
    type V = SelectionModel;

    open spec fn view(&self) -> SelectionModel {
        match self {
            Selection::NoSelection => SelectionModel::NoSelection,
            Selection::File(p) => SelectionModel::File(p@),
            Selection::Directory(p) => SelectionModel::Directory(p@),
            Selection::Parent => SelectionModel::Parent,
        }
    }
}

/// The parent row synthesized atop a listing of `dir`.
pub open spec fn parent_model(dir: Seq<char>) -> EntryModel {
    EntryModel { path: dir + "/.."@, name: ".."@, is_dir: true }
}

/// A freshly installed listing: the given rows sorted into listing order,
/// under a synthetic parent row when the directory has a parent.
pub open spec fn installed_snapshot(
    s: Seq<EntryModel>,
    input: Seq<EntryModel>,
    has_parent: bool,
    dir: Seq<char>,
) -> bool {
    if has_parent {
        &&& s.len() == input.len() + 1
        &&& s[0] == parent_model(dir)
        &&& s.skip(1).to_multiset() == input.to_multiset()
        &&& sorted_by(s.skip(1), entry_order())
    } else {
        &&& s.to_multiset() == input.to_multiset()
        &&& sorted_by(s, entry_order())
    }
}

proof fn lemma_installed_snapshot_wf(
    s: Seq<EntryModel>,
    input: Seq<EntryModel>,
    has_parent: bool,
    dir: Seq<char>,
)
    requires
        installed_snapshot(s, input, has_parent, dir),
    ensures
        snapshot_wf(s),
{
    if has_parent {
        assert(is_parent_model(s[0]));
    } else {
        if s.len() > 0 && is_parent_model(s[0]) {
            assert(sorted_by(s.skip(1), entry_order())) by {
                assert(forall|i: int, j: int|
                    0 <= i < j < s.skip(1).len() ==> #[trigger] s.skip(1)[i] == s[i + 1]
                        && #[trigger] s.skip(1)[j] == s[j + 1]);
            }
        }
    }
}

/// The whole browsing state: the directory being shown, its listing, the
/// query and the ranked rows it selects, the cursor, the preview pane, and
/// the key mode.
pub struct App {
    pub current_path: String,
    pub items: Vec<Entry>,
    pub filter: String,
    pub filtered_items: Vec<(usize, i32)>,
    pub selected: Option<usize>,
    pub config: Config,
    pub preview_content: Option<Vec<u8>>,
    pub preview_scroll: usize,
    pub mode: Mode,
}

impl App {
    /// The listing's mathematical value.
    pub open spec fn snapshot(self) -> Seq<EntryModel> {
        entry_models(self.items@)
    }

    /// The ranked rows' mathematical value.
    pub open spec fn ranked(self) -> Seq<(int, int)> {
        rank_models(self.filtered_items@)
    }

    /// Well-formed state: the ranked rows are exactly the query's ranking
    /// of the listing, the cursor exists exactly when rows do and stays in
    /// bounds, and the listing is in display order.
    pub open spec fn wf(self) -> bool {
        &&& self.ranked() == ranked_spec(self.snapshot(), self.filter@)
        &&& (self.selected is None <==> self.filtered_items@.len() == 0)
        &&& (match self.selected {
            Some(i) => (i as int) < self.filtered_items@.len(),
            None => true,
        })
        &&& snapshot_wf(self.snapshot())
    }

    /// What activating the cursor's row would decide.
    pub open spec fn selection_spec(self) -> SelectionModel {
        match self.selected {
            None => SelectionModel::NoSelection,
            Some(i) => {
                if i as int >= self.ranked().len() {
                    SelectionModel::NoSelection
                } else {
                    let idx = self.ranked()[i as int].0;
                    if 0 <= idx < self.snapshot().len() {
                        let e = self.snapshot()[idx];
                        if !e.is_dir {
                            SelectionModel::File(e.path)
                        } else if e.name == ".."@ {
                            SelectionModel::Parent
                        } else {
                            SelectionModel::Directory(e.path)
                        }
                    } else {
                        SelectionModel::NoSelection
                    }
                }
            },
        }
    }

    /// The row the preview pane follows: the cursor's row when it is an
    /// ordinary file, nothing for directories and the parent row.
    pub open spec fn preview_target(self) -> Option<EntryModel> {
        match self.selected {
            None => None,
            Some(i) => {
                if i as int >= self.ranked().len() {
                    None
                } else {
                    let idx = self.ranked()[i as int].0;
                    if 0 <= idx < self.snapshot().len() {
                        let e = self.snapshot()[idx];
                        if !e.is_dir && e.name != ".."@ {
                            Some(e)
                        } else {
                            None
                        }
                    } else {
                        None
                    }
                }
            },
        }
    }

    /// Rebuilds the ranked rows from the listing and query, and resets the
    /// cursor to the top row (or to nothing when nothing matches). The
    /// preview is cleared for the caller to reload.
    fn update_filter(&mut self)
        ensures
            final(self).items == old(self).items,
            final(self).current_path == old(self).current_path,
            final(self).filter == old(self).filter,
            final(self).config == old(self).config,
            final(self).mode == old(self).mode,
            final(self).ranked() == ranked_spec(final(self).snapshot(), final(self).filter@),
            final(self).selected == (if final(self).filtered_items@.len() == 0 {
                None::<usize>
            } else {
                Some(0usize)
            }),
            final(self).preview_content is None,
            final(self).preview_scroll == 0,
    {
        let ranked = compute_ranked(&self.items, self.filter.as_str());
        self.filtered_items = ranked;
        if self.filtered_items.is_empty() {
            self.selected = None;
        } else {
            self.selected = Some(0);
        }
        self.preview_content = None;
        self.preview_scroll = 0;
    }

    /// Installs a new listing under the current directory: sorts it, adds
    /// the parent row when asked to, and recomputes ranking and cursor.
    fn install_snapshot(&mut self, entries: Vec<Entry>, has_parent: bool)
        ensures
            installed_snapshot(
                final(self).snapshot(),
                entry_models(entries@),
                has_parent,
                old(self).current_path@,
            ),
            final(self).wf(),
            final(self).current_path == old(self).current_path,
            final(self).filter == old(self).filter,
            final(self).config == old(self).config,
            final(self).mode == old(self).mode,
            final(self).selected == (if final(self).filtered_items@.len() == 0 {
                None::<usize>
            } else {
                Some(0usize)
            }),
            final(self).preview_content is None,
            final(self).preview_scroll == 0,
    {
        let ghost input = entry_models(entries@);
        let sorted = sort_entries(entries);
        if has_parent {
            let parent_path = self.current_path.clone().concat("/..");
            let parent = Entry { path: parent_path, name: String::from_str(".."), is_dir: true };
            let mut items: Vec<Entry> = Vec::new();
            items.push(parent);
            let ghost sorted_view = sorted@;
            let mut rest = sorted;
            items.append(&mut rest);
            proof {
                assert(entry_models(items@).skip(1) =~= entry_models(sorted_view));
                assert(entry_models(items@)[0] == parent_model(self.current_path@));
                assert(entry_models(sorted_view).to_multiset().len() == entry_models(
                    sorted_view,
                ).len());
                assert(input.to_multiset().len() == input.len());
                assert(entry_models(items@).len() == 1 + input.len());
            }
            self.items = items;
        } else {
            self.items = sorted;
        }
        proof {
            assert(installed_snapshot(
                entry_models(self.items@),
                input,
                has_parent,
                self.current_path@,
            ));
            lemma_installed_snapshot_wf(
                entry_models(self.items@),
                input,
                has_parent,
                self.current_path@,
            );
        }
        self.update_filter();
    }

    /// Opens a browsing session on a directory listing. The listing rows
    /// come from the configured directory; `has_parent` says whether that
    /// directory has a parent. The configured query filters from the start.
    pub fn new(config: Config, entries: Vec<Entry>, has_parent: bool) -> (app: App)
        ensures
            app.wf(),
            app.current_path@ == config.directory@,
            app.filter@ == config.query@,
            app.mode == Mode::Normal,
            installed_snapshot(
                app.snapshot(),
                entry_models(entries@),
                has_parent,
                config.directory@,
            ),
            app.selected == (if app.filtered_items@.len() == 0 {
                None::<usize>
            } else {
                Some(0usize)
            }),
            app.preview_content is None,
            app.preview_scroll == 0,
    {
        let mut app = App {
            current_path: config.directory.clone(),
            items: Vec::new(),
            filter: config.query.clone(),
            filtered_items: Vec::new(),
            selected: None,
            config,
            preview_content: None,
            preview_scroll: 0,
            mode: Mode::Normal,
        };
        app.install_snapshot(entries, has_parent);
        app
    }

    /// Replaces the listing wholesale, keeping the query: the caller hands
    /// over what the current directory now holds.
    pub fn load_directory(&mut self, entries: Vec<Entry>, has_parent: bool)
        ensures
            final(self).wf(),
            installed_snapshot(
                final(self).snapshot(),
                entry_models(entries@),
                has_parent,
                old(self).current_path@,
            ),
            final(self).current_path == old(self).current_path,
            final(self).filter == old(self).filter,
            final(self).config == old(self).config,
            final(self).mode == old(self).mode,
            final(self).selected == (if final(self).filtered_items@.len() == 0 {
                None::<usize>
            } else {
                Some(0usize)
            }),
            final(self).preview_content is None,
            final(self).preview_scroll == 0,
    {
        self.install_snapshot(entries, has_parent);
    }

    /// Moves into another directory: the path becomes current, the query
    /// is cleared, and the new listing is installed.
    pub fn navigate_into(&mut self, path: String, entries: Vec<Entry>, has_parent: bool)
        ensures
            final(self).wf(),
            final(self).current_path == path,
            final(self).filter@.len() == 0,
            installed_snapshot(
                final(self).snapshot(),
                entry_models(entries@),
                has_parent,
                path@,
            ),
            final(self).config == old(self).config,
            final(self).mode == old(self).mode,
            final(self).selected == (if final(self).filtered_items@.len() == 0 {
                None::<usize>
            } else {
                Some(0usize)
            }),
            final(self).preview_content is None,
            final(self).preview_scroll == 0,
    {
        self.current_path = path;
        self.filter = String::new();
        self.install_snapshot(entries, has_parent);
    }

    /// Moves the cursor one row down, wrapping from the last row to the
    /// top; with no rows nothing changes.
    pub fn next(&mut self)
        requires
            old(self).wf(),
        ensures
            final(self).wf(),
            final(self).items == old(self).items,
            final(self).filter == old(self).filter,
            final(self).filtered_items == old(self).filtered_items,
            final(self).current_path == old(self).current_path,
            final(self).config == old(self).config,
            final(self).mode == old(self).mode,
            (match old(self).selected {
                None => *final(self) == *old(self),
                Some(i) => {
                    &&& final(self).selected == (if i as int + 1
                        == old(self).filtered_items@.len() {
                        Some(0usize)
                    } else {
                        Some((i + 1) as usize)
                    })
                    &&& final(self).preview_content is None
                    &&& final(self).preview_scroll == 0
                },
            }),
    {
        if self.filtered_items.is_empty() {
            return ;
        }
        match self.selected {
            Some(i) => {
                let n = self.filtered_items.len();
                let j = if i + 1 == n {
                    0
                } else {
                    i + 1
                };
                self.selected = Some(j);
                self.preview_content = None;
                self.preview_scroll = 0;
            },
            None => {
                proof {
                    assert(false);
                }
            },
        }
    }

    /// Moves the cursor one row up, wrapping from the top row to the last;
    /// with no rows nothing changes.
    pub fn previous(&mut self)
        requires
            old(self).wf(),
        ensures
            final(self).wf(),
            final(self).items == old(self).items,
            final(self).filter == old(self).filter,
            final(self).filtered_items == old(self).filtered_items,
            final(self).current_path == old(self).current_path,
            final(self).config == old(self).config,
            final(self).mode == old(self).mode,
            (match old(self).selected {
                None => *final(self) == *old(self),
                Some(i) => {
                    &&& final(self).selected == (if i == 0 {
                        Some((old(self).filtered_items@.len() - 1) as usize)
                    } else {
                        Some((i - 1) as usize)
                    })
                    &&& final(self).preview_content is None
                    &&& final(self).preview_scroll == 0
                },
            }),
    {
        if self.filtered_items.is_empty() {
            return ;
        }
        match self.selected {
            Some(i) => {
                let n = self.filtered_items.len();
                let j = if i == 0 {
                    n - 1
                } else {
                    i - 1
                };
                self.selected = Some(j);
                self.preview_content = None;
                self.preview_scroll = 0;
            },
            None => {
                proof {
                    assert(false);
                }
            },
        }
    }

    /// Puts the cursor on the first row; with no rows nothing changes.
    pub fn go_to_top(&mut self)
        requires
            old(self).wf(),
        ensures
            final(self).wf(),
            final(self).items == old(self).items,
            final(self).filter == old(self).filter,
            final(self).filtered_items == old(self).filtered_items,
            final(self).current_path == old(self).current_path,
            final(self).config == old(self).config,
            final(self).mode == old(self).mode,
            old(self).filtered_items@.len() == 0 ==> *final(self) == *old(self),
            old(self).filtered_items@.len() > 0 ==> final(self).selected == Some(0usize)
                && final(self).preview_content is None && final(self).preview_scroll == 0,
    {
        if !self.filtered_items.is_empty() {
            self.selected = Some(0);
            self.preview_content = None;
            self.preview_scroll = 0;
        }
    }

    /// Puts the cursor on the last row; with no rows nothing changes.
    pub fn go_to_bottom(&mut self)
        requires
            old(self).wf(),
        ensures
            final(self).wf(),
            final(self).items == old(self).items,
            final(self).filter == old(self).filter,
            final(self).filtered_items == old(self).filtered_items,
            final(self).current_path == old(self).current_path,
            final(self).config == old(self).config,
            final(self).mode == old(self).mode,
            old(self).filtered_items@.len() == 0 ==> *final(self) == *old(self),
            old(self).filtered_items@.len() > 0 ==> final(self).selected == Some(
                (old(self).filtered_items@.len() - 1) as usize,
            ) && final(self).preview_content is None && final(self).preview_scroll == 0,
    {
        if !self.filtered_items.is_empty() {
            let n = self.filtered_items.len();
            self.selected = Some(n - 1);
            self.preview_content = None;
            self.preview_scroll = 0;
        }
    }

    /// Scrolls the preview down five lines; without a preview nothing
    /// changes.
    pub fn scroll_preview_down(&mut self)
        requires
            old(self).preview_scroll + 5 <= usize::MAX,
        ensures
            old(self).wf() ==> final(self).wf(),
            old(self).preview_content is Some ==> final(self).preview_scroll == old(
                self,
            ).preview_scroll + 5,
            old(self).preview_content is None ==> *final(self) == *old(self),
            final(self).preview_content == old(self).preview_content,
            final(self).items == old(self).items,
            final(self).filter == old(self).filter,
            final(self).filtered_items == old(self).filtered_items,
            final(self).selected == old(self).selected,
            final(self).current_path == old(self).current_path,
            final(self).config == old(self).config,
            final(self).mode == old(self).mode,
    {
        if self.preview_content.is_some() {
            self.preview_scroll = self.preview_scroll + 5;
        }
    }

    /// Scrolls the preview up five lines, stopping at the top; without a
    /// preview nothing changes.
    pub fn scroll_preview_up(&mut self)
        ensures
            old(self).wf() ==> final(self).wf(),
            old(self).preview_content is Some ==> final(self).preview_scroll == (if old(
                self,
            ).preview_scroll >= 5 {
                (old(self).preview_scroll - 5) as usize
            } else {
                0usize
            }),
            old(self).preview_content is None ==> *final(self) == *old(self),
            final(self).preview_content == old(self).preview_content,
            final(self).items == old(self).items,
            final(self).filter == old(self).filter,
            final(self).filtered_items == old(self).filtered_items,
            final(self).selected == old(self).selected,
            final(self).current_path == old(self).current_path,
            final(self).config == old(self).config,
            final(self).mode == old(self).mode,
    {
        if self.preview_content.is_some() {
            if self.preview_scroll >= 5 {
                self.preview_scroll = self.preview_scroll - 5;
            } else {
                self.preview_scroll = 0;
            }
        }
    }

    /// Decides what activating the cursor's row means; the state itself is
    /// untouched. The caller performs any directory change it asks for.
    pub fn enter_selected(&self) -> (r: Selection)
        requires
            self.wf(),
        ensures
            r@ == self.selection_spec(),
    {
        proof {
            lemma_ranked_spec_props(self.snapshot(), self.filter@);
        }
        match self.selected {
            None => Selection::NoSelection,
            Some(i) => {
                let (idx, _score) = self.filtered_items[i];
                let e = &self.items[idx];
                if !e.is_dir {
                    Selection::File(e.path.clone())
                } else if eq_str(e.name.as_str(), "..") {
                    Selection::Parent
                } else {
                    Selection::Directory(e.path.clone())
                }
            },
        }
    }

    /// Switches the key mode and nothing else.
    pub fn set_mode(&mut self, mode: Mode)
        ensures
            old(self).wf() ==> final(self).wf(),
            final(self).mode == mode,
            final(self).items == old(self).items,
            final(self).filter == old(self).filter,
            final(self).filtered_items == old(self).filtered_items,
            final(self).selected == old(self).selected,
            final(self).current_path == old(self).current_path,
            final(self).config == old(self).config,
            final(self).preview_content == old(self).preview_content,
            final(self).preview_scroll == old(self).preview_scroll,
    {
        self.mode = mode;
    }

    /// Appends one character to the query and recomputes ranking and
    /// cursor.
    pub fn add_char_to_filter(&mut self, c: char)
        requires
            old(self).wf(),
        ensures
            final(self).wf(),
            final(self).filter@ == old(self).filter@.push(c),
            final(self).items == old(self).items,
            final(self).current_path == old(self).current_path,
            final(self).config == old(self).config,
            final(self).mode == old(self).mode,
            final(self).ranked() == ranked_spec(final(self).snapshot(), final(self).filter@),
            final(self).selected == (if final(self).filtered_items@.len() == 0 {
                None::<usize>
            } else {
                Some(0usize)
            }),
            final(self).preview_content is None,
            final(self).preview_scroll == 0,
    {
        push_char(&mut self.filter, c);
        self.update_filter();
    }

    /// Removes the query's last character (an empty query stays empty) and
    /// recomputes ranking and cursor.
    pub fn remove_char_from_filter(&mut self)
        requires
            old(self).wf(),
        ensures
            final(self).wf(),
            final(self).filter@ == (if old(self).filter@.len() > 0 {
                old(self).filter@.drop_last()
            } else {
                old(self).filter@
            }),
            final(self).items == old(self).items,
            final(self).current_path == old(self).current_path,
            final(self).config == old(self).config,
            final(self).mode == old(self).mode,
            final(self).ranked() == ranked_spec(final(self).snapshot(), final(self).filter@),
            final(self).selected == (if final(self).filtered_items@.len() == 0 {
                None::<usize>
            } else {
                Some(0usize)
            }),
            final(self).preview_content is None,
            final(self).preview_scroll == 0,
    {
        pop_char(&mut self.filter);
        self.update_filter();
    }

    /// Empties the query, showing the whole listing again, and recomputes
    /// ranking and cursor.
    pub fn clear_filter(&mut self)
        requires
            old(self).wf(),
        ensures
            final(self).wf(),
            final(self).filter@.len() == 0,
            final(self).items == old(self).items,
            final(self).current_path == old(self).current_path,
            final(self).config == old(self).config,
            final(self).mode == old(self).mode,
            final(self).ranked() == ranked_spec(final(self).snapshot(), final(self).filter@),
            final(self).selected == (if final(self).filtered_items@.len() == 0 {
                None::<usize>
            } else {
                Some(0usize)
            }),
            final(self).preview_content is None,
            final(self).preview_scroll == 0,
    {
        self.filter = String::new();
        self.update_filter();
    }

    /// The path the preview pane wants read, when the cursor rests on an
    /// ordinary file.
    pub fn preview_path(&self) -> (r: Option<String>)
        requires
            self.wf(),
        ensures
            (match r {
                Some(p) => self.preview_target() matches Some(e) && p@ == e.path,
                None => self.preview_target() is None,
            }),
    {
        proof {
            lemma_ranked_spec_props(self.snapshot(), self.filter@);
        }
        match self.selected {
            None => None,
            Some(i) => {
                let (idx, _score) = self.filtered_items[i];
                let e = &self.items[idx];
                if !e.is_dir && !eq_str(e.name.as_str(), "..") {
                    Some(e.path.clone())
                } else {
                    None
                }
            },
        }
    }

    /// Fills the preview pane from the read of the cursor's file (`None`:
    /// the read failed) and rewinds its scroll; when no file is under the
    /// cursor the pane is emptied and the argument ignored.
    pub fn load_preview(&mut self, read: Option<Vec<u8>>)
        requires
            old(self).wf(),
        ensures
            final(self).wf(),
            final(self).items == old(self).items,
            final(self).filter == old(self).filter,
            final(self).filtered_items == old(self).filtered_items,
            final(self).selected == old(self).selected,
            final(self).current_path == old(self).current_path,
            final(self).config == old(self).config,
            final(self).mode == old(self).mode,
            final(self).preview_scroll == 0,
            (match old(self).preview_target() {
                Some(e) => final(self).preview_content matches Some(v) && v@ == preview_of(
                    e.name,
                    match read {
                        Some(b) => Some(b@),
                        None => None,
                    },
                ),
                None => final(self).preview_content is None,
            }),
    {
        proof {
            lemma_ranked_spec_props(self.snapshot(), self.filter@);
        }
        match self.selected {
            None => {
                self.preview_content = None;
                self.preview_scroll = 0;
            },
            Some(i) => {
                let (idx, _score) = self.filtered_items[i];
                let is_file = {
                    let e = &self.items[idx];
                    !e.is_dir && !eq_str(e.name.as_str(), "..")
                };
                if is_file {
                    let rendered = render_preview(self.items[idx].name.as_str(), read);
                    self.preview_content = Some(rendered);
                    self.preview_scroll = 0;
                } else {
                    self.preview_content = None;
                    self.preview_scroll = 0;
                }
            },
        }
    }

    /// The first `limit` ranked rows, resolved for headless output: path,
    /// name, kind and score, in ranking order.
    pub fn ranked_results(&self, limit: usize) -> (r: Vec<SearchResult>)
        requires
            self.wf(),
        ensures
            r@.len() == (if limit as int <= self.ranked().len() {
                limit as int
            } else {
                self.ranked().len() as int
            }),
            forall|k: int|
                0 <= k < r@.len() ==> {
                    let (idx, sc) = #[trigger] self.ranked()[k];
                    &&& r@[k].score as int == sc
                    &&& r@[k].path@ == self.snapshot()[idx].path
                    &&& r@[k].name@ == self.snapshot()[idx].name
                    &&& r@[k].is_dir == self.snapshot()[idx].is_dir
                },
    {
        proof {
            lemma_ranked_spec_props(self.snapshot(), self.filter@);
        }
        let n = self.filtered_items.len();
        let count = if limit <= n {
            limit
        } else {
            n
        };
        let mut r: Vec<SearchResult> = Vec::new();
        let mut k: usize = 0;
        while k < count
            invariant
                self.wf(),
                count as int <= self.ranked().len(),
                k <= count,
                r@.len() == k as int,
                forall|j: int|
                    0 <= j < self.ranked().len() ==> 0 <= (#[trigger] self.ranked()[j]).0
                        < self.snapshot().len(),
                forall|j: int|
                    0 <= j < k ==> {
                        let (idx, sc) = #[trigger] self.ranked()[j];
                        &&& r@[j].score as int == sc
                        &&& r@[j].path@ == self.snapshot()[idx].path
                        &&& r@[j].name@ == self.snapshot()[idx].name
                        &&& r@[j].is_dir == self.snapshot()[idx].is_dir
                    },
            decreases count - k,
        {
            let (idx, score) = self.filtered_items[k];
            proof {
                assert(self.ranked()[k as int] == (idx as int, score as int));
            }
            let e = &self.items[idx];
            r.push(
                SearchResult {
                    path: e.path.clone(),
                    score,
                    name: e.name.clone(),
                    is_dir: e.is_dir,
                },
            );
            k = k + 1;
        }
        r
    }
}

/// Ranking is a function of listing and query alone: two well-formed
/// states over the same listing and query rank identically.
pub proof fn lemma_recompute_deterministic(a: App, b: App)
    requires
        a.wf(),
        b.wf(),
        a.snapshot() == b.snapshot(),
        a.filter@ == b.filter@,
    ensures
        a.ranked() == b.ranked(),
{
}

} // verus!
