use vstd::multiset::Multiset;
use vstd::prelude::*;
use vstd::relations::sorted_by;

verus! {

broadcast use {vstd::seq_lib::group_to_multiset_ensures, vstd::multiset::group_multiset_axioms};

/// One listing row: where the entry lives, the name it is shown and
/// matched under, and whether it is a directory. The synthetic parent row
/// is named `..` and counts as a directory.
pub struct Entry {
    pub path: String,
    pub name: String,
    pub is_dir: bool,
}

/// The mathematical value of an [`Entry`].
pub ghost struct EntryModel {
    pub path: Seq<char>,
    pub name: Seq<char>,
    pub is_dir: bool,
}

impl View for Entry {
    type V = EntryModel;

    open spec fn view(&self) -> EntryModel {
        EntryModel { path: self.path@, name: self.name@, is_dir: self.is_dir }
    }
}

/// The models of a whole listing.
pub open spec fn entry_models(s: Seq<Entry>) -> Seq<EntryModel> {
    s.map_values(|e: Entry| e@)
}

/// Lexicographic order on character sequences by code point, the order
/// `str` comparison uses.
pub open spec fn lex_le(a: Seq<char>, b: Seq<char>) -> bool
    decreases a.len(),
{
    if a.len() == 0 {
        true
    } else if b.len() == 0 {
        false
    } else if (a[0] as u32) == (b[0] as u32) {
        lex_le(a.drop_first(), b.drop_first())
    } else {
        (a[0] as u32) < (b[0] as u32)
    }
}

/// Listing order for ordinary rows: directories before files, then names
/// lexicographically.
pub open spec fn entry_le(a: EntryModel, b: EntryModel) -> bool {
    if a.is_dir == b.is_dir {
        lex_le(a.name, b.name)
    } else {
        a.is_dir
    }
}

/// [`entry_le`] as a relation value, for sortedness statements.
pub open spec fn entry_order() -> spec_fn(EntryModel, EntryModel) -> bool {
    |a: EntryModel, b: EntryModel| entry_le(a, b)
}

/// The synthetic parent row.
pub open spec fn is_parent_model(e: EntryModel) -> bool {
    e.name == ".."@ && e.is_dir
}

/// A listing in display order: sorted throughout, except that a leading
/// parent row stands outside the order.
pub open spec fn snapshot_wf(s: Seq<EntryModel>) -> bool {
    if s.len() > 0 && is_parent_model(s[0]) {
        sorted_by(s.skip(1), entry_order())
    } else {
        sorted_by(s, entry_order())
    }
}

/// In a well-formed listing no directory row stands after a file row,
/// leaving the leading parent row aside.
pub proof fn lemma_dirs_before_files(s: Seq<EntryModel>)
    requires
        snapshot_wf(s),
    ensures
        ({
            let start: int = if s.len() > 0 && is_parent_model(s[0]) {
                1int
            } else {
                0int
            };
            forall|i: int, j: int|
                start <= i < j < s.len() && !(#[trigger] s[i]).is_dir ==> !(#[trigger] s[j]).is_dir
        }),
{
    let start: int = if s.len() > 0 && is_parent_model(s[0]) {
        1int
    } else {
        0int
    };
    assert forall|i: int, j: int|
        start <= i < j < s.len() && !(#[trigger] s[i]).is_dir implies !(#[trigger] s[j]).is_dir by {
        if start == 1 {
            assert(s.skip(1)[i - 1] == s[i]);
            assert(s.skip(1)[j - 1] == s[j]);
            assert(entry_order()(s.skip(1)[i - 1], s.skip(1)[j - 1]));
            assert(entry_le(s[i], s[j]));
        } else {
            assert(entry_order()(s[i], s[j]));
            assert(entry_le(s[i], s[j]));
        }
    }
}

proof fn lemma_lex_le_total(a: Seq<char>, b: Seq<char>)
    ensures
        lex_le(a, b) || lex_le(b, a),
    decreases a.len(),
{
    if a.len() > 0 && b.len() > 0 && (a[0] as u32) == (b[0] as u32) {
        lemma_lex_le_total(a.drop_first(), b.drop_first());
    }
}

proof fn lemma_lex_le_trans(a: Seq<char>, b: Seq<char>, c: Seq<char>)
    requires
        lex_le(a, b),
        lex_le(b, c),
    ensures
        lex_le(a, c),
    decreases a.len(),
{
    if a.len() > 0 && b.len() > 0 && c.len() > 0 {
        if (a[0] as u32) == (b[0] as u32) && (b[0] as u32) == (c[0] as u32) {
            lemma_lex_le_trans(a.drop_first(), b.drop_first(), c.drop_first());
        }
    }
}

/// Any two rows are comparable under the listing order.
pub proof fn lemma_entry_le_total(a: EntryModel, b: EntryModel)
    ensures
        entry_le(a, b) || entry_le(b, a),
{
    if a.is_dir == b.is_dir {
        lemma_lex_le_total(a.name, b.name);
    }
}

/// The listing order is transitive.
pub proof fn lemma_entry_le_trans(a: EntryModel, b: EntryModel, c: EntryModel)
    requires
        entry_le(a, b),
        entry_le(b, c),
    ensures
        entry_le(a, c),
{
    if a.is_dir == b.is_dir && b.is_dir == c.is_dir {
        lemma_lex_le_trans(a.name, b.name, c.name);
    }
}

/// Compares two strings in code point order.
fn lex_le_exec(a: &str, b: &str) -> (r: bool)
    ensures
        r == lex_le(a@, b@),
{
    let na = a.unicode_len();
    let nb = b.unicode_len();
    let mut i: usize = 0;
    proof {
        assert(a@.skip(0) =~= a@);
        assert(b@.skip(0) =~= b@);
    }
    while i < na && i < nb
        invariant
            i <= na,
            i <= nb,
            na == a@.len(),
            nb == b@.len(),
            lex_le(a@, b@) == lex_le(a@.skip(i as int), b@.skip(i as int)),
        decreases na - i,
    {
        let ca = a.get_char(i);
        let cb = b.get_char(i);
        proof {
            assert(a@.skip(i as int)[0] == a@[i as int]);
            assert(b@.skip(i as int)[0] == b@[i as int]);
        }
        if (ca as u32) != (cb as u32) {
            return (ca as u32) < (cb as u32);
        }
        i = i + 1;
        proof {
            assert(a@.skip(i - 1).drop_first() =~= a@.skip(i as int));
            assert(b@.skip(i - 1).drop_first() =~= b@.skip(i as int));
        }
    }
    i == na
}

/// Compares two rows in listing order.
pub(crate) fn entry_le_exec(a: &Entry, b: &Entry) -> (r: bool)
    ensures
        r == entry_le(a@, b@),
{
    if a.is_dir == b.is_dir {
        lex_le_exec(a.name.as_str(), b.name.as_str())
    } else {
        a.is_dir
    }
}

/// Index of a least row under the listing order.
fn min_entry_index(v: &Vec<Entry>) -> (mi: usize)
    requires
        v@.len() > 0,
    ensures
        mi < v@.len(),
        forall|k: int| 0 <= k < v@.len() ==> entry_le(v@[mi as int]@, #[trigger] v@[k]@),
{
    let mut mi: usize = 0;
    let mut j: usize = 1;
    proof {
        lemma_entry_le_total(v@[0]@, v@[0]@);
    }
    while j < v.len()
        invariant
            mi < j <= v@.len(),
            forall|k: int| 0 <= k < j ==> entry_le(v@[mi as int]@, #[trigger] v@[k]@),
        decreases v@.len() - j,
    {
        if entry_le_exec(&v[j], &v[mi]) && !entry_le_exec(&v[mi], &v[j]) {
            proof {
                assert forall|k: int| 0 <= k < j + 1 implies entry_le(
                    v@[j as int]@,
                    #[trigger] v@[k]@,
                ) by {
                    if k < j {
                        lemma_entry_le_trans(v@[j as int]@, v@[mi as int]@, v@[k]@);
                    } else {
                        lemma_entry_le_total(v@[j as int]@, v@[j as int]@);
                    }
                }
            }
            mi = j;
        } else {
            proof {
                lemma_entry_le_total(v@[j as int]@, v@[mi as int]@);
            }
        }
        j = j + 1;
    }
    mi
}

/// Sorts a listing: directories first, then names in code point order. The
/// result holds exactly the rows that went in.
pub fn sort_entries(entries: Vec<Entry>) -> (r: Vec<Entry>)
    ensures
        entry_models(r@).to_multiset() == entry_models(entries@).to_multiset(),
        sorted_by(entry_models(r@), entry_order()),
{
    let ghost input = entries@;
    let mut rest = entries;
    let mut out: Vec<Entry> = Vec::new();
    while rest.len() > 0
        invariant
            entry_models(out@).to_multiset().add(entry_models(rest@).to_multiset())
                =~= entry_models(input).to_multiset(),
            sorted_by(entry_models(out@), entry_order()),
            forall|a: int, b: int|
                0 <= a < out@.len() && 0 <= b < rest@.len() ==> entry_le(
                    #[trigger] out@[a]@,
                    #[trigger] rest@[b]@,
                ),
        decreases rest@.len(),
    {
        let ghost old_out = out@;
        let ghost old_rest = rest@;
        let mi = min_entry_index(&rest);
        let e = rest.remove(mi);
        out.push(e);
        proof {
            assert(entry_models(old_rest.remove(mi as int)) =~= entry_models(old_rest).remove(
                mi as int,
            ));
            assert(entry_models(old_out.push(e)) =~= entry_models(old_out).push(e@));
            assert(entry_models(old_rest).remove(mi as int).to_multiset() =~= entry_models(
                old_rest,
            ).to_multiset().remove(e@));
            assert(entry_models(out@).to_multiset() =~= entry_models(old_out).to_multiset().insert(
                e@,
            ));
            assert(entry_models(old_rest).to_multiset().count(e@) > 0);
            assert(entry_models(out@).to_multiset().add(entry_models(rest@).to_multiset())
                =~= entry_models(input).to_multiset());
            assert(sorted_by(entry_models(out@), entry_order()));
            assert forall|a: int, b: int|
                0 <= a < out@.len() && 0 <= b < rest@.len() implies entry_le(
                #[trigger] out@[a]@,
                #[trigger] rest@[b]@,
            ) by {
                if a < old_out.len() {
                } else {
                    assert(out@[a] == e);
                    if b < mi {
                        assert(rest@[b] == old_rest[b]);
                    } else {
                        assert(rest@[b] == old_rest[b + 1]);
                    }
                }
            }
        }
    }
    proof {
        assert(entry_models(rest@).to_multiset() =~= Multiset::empty());
        assert(entry_models(out@).to_multiset() =~= entry_models(input).to_multiset());
    }
    out
}

} // verus!
