//! The palette: a mapping from unique names to integral colors, supplied by
//! the caller or defaulting to a fixed sixteen-entry table.
//!
//! The mapping is kept as a vector of (name, color) entries; its mathematical
//! view is the sequence of (name characters, color) pairs. Lookup takes the
//! first entry with a matching name, so when the names are pairwise distinct
//! (the intended use, stated by [`Palette::wf`]) it behaves as a map; the
//! entry order additionally serves as the deterministic tie-break order of
//! the search.

use vstd::prelude::*;

use crate::color::RGB;

verus! {

/// A palette: named base colors, immutable for the duration of a search.
#[derive(Debug, Clone)]
pub struct Palette {
    pub entries: Vec<(String, RGB)>,
}

/// The mathematical content of an entry list: each name as its characters,
/// next to its color.
pub open spec fn entries_view(entries: Seq<(String, RGB)>) -> Seq<(Seq<char>, RGB)> {
    entries.map_values(|e: (String, RGB)| (e.0@, e.1))
}

impl View for Palette {
    type V = Seq<(Seq<char>, RGB)>;

    open spec fn view(&self) -> Seq<(Seq<char>, RGB)> {
        entries_view(self.entries@)
    }
}

/// Whether a name occurs among the entries.
pub open spec fn has_name(pal: Seq<(Seq<char>, RGB)>, name: Seq<char>) -> bool {
    exists|i: int| 0 <= i < pal.len() && pal[i].0 == name
}

/// The color of the first entry carrying the name (arbitrary when absent).
pub open spec fn lookup_color(pal: Seq<(Seq<char>, RGB)>, name: Seq<char>) -> RGB
    recommends
        has_name(pal, name),
    decreases pal.len(),
{
    if pal.len() == 0 {
        RGB { red: 0, green: 0, blue: 0 }
    } else if pal[0].0 == name {
        pal[0].1
    } else {
        lookup_color(pal.drop_first(), name)
    }
}

/// First-match lookup returns the entry at `j` when no earlier entry carries
/// the same name.
pub proof fn lemma_lookup_first(pal: Seq<(Seq<char>, RGB)>, name: Seq<char>, j: int)
    requires
        0 <= j < pal.len(),
        pal[j].0 == name,
        forall|k: int| 0 <= k < j ==> pal[k].0 != name,
    ensures
        has_name(pal, name),
        lookup_color(pal, name) == pal[j].1,
    decreases j,
{
    if j > 0 {
        lemma_lookup_first(pal.drop_first(), name, j - 1);
    }
}

impl Palette {
    /// Well-formed: the names are pairwise distinct, so the entry list is a
    /// genuine mapping.
    pub open spec fn wf(self) -> bool {
        forall|i: int, j: int| 0 <= i < j < self@.len() ==> self@[i].0 != self@[j].0
    }

    /// The number of entries.
    pub fn len(&self) -> (n: usize)
        ensures
            n == self@.len(),
    {
        self.entries.len()
    }

    /// The color of the first entry named `name`.
    pub fn lookup(&self, name: &String) -> (r: Option<RGB>)
        ensures
            r is Some <==> has_name(self@, name@),
            r matches Some(c) ==> c == lookup_color(self@, name@),
    {
        let n = self.entries.len();
        for j in 0..n
            invariant
                n == self@.len(),
                forall|k: int| 0 <= k < j ==> self@[k].0 != name@,
        {
            if self.entries[j].0 == *name {
                proof {
                    lemma_lookup_first(self@, name@, j as int);
                }
                return Some(self.entries[j].1);
            }
        }
        None
    }
}

/// The conversion of raw (name, channels) pairs into palette content, entry
/// by entry and in order.
pub open spec fn convert_spec(colors: Seq<(String, [u8; 3])>) -> Seq<(Seq<char>, RGB)> {
    colors.map_values(
        |e: (String, [u8; 3])| (e.0@, RGB { red: e.1[0], green: e.1[1], blue: e.1[2] }),
    )
}

/// Builds a palette from raw (name, channels) pairs, keeping their order.
pub fn convert_colors(colors: &Vec<(String, [u8; 3])>) -> (r: Palette)
    ensures
        r@ == convert_spec(colors@),
{
    let mut entries: Vec<(String, RGB)> = Vec::new();
    let n = colors.len();
    for i in 0..n
        invariant
            n == colors@.len(),
            entries_view(entries@) == convert_spec(colors@.take(i as int)),
    {
        let name = colors[i].0.clone();
        let rgb = RGB::new(colors[i].1);
        entries.push((name, rgb));
        proof {
            let prev = entries@.drop_last();
            assert(entries@.last() == (name, rgb));
            assert(entries_view(prev) == convert_spec(colors@.take(i as int)));
            assert(colors@.take(i + 1).drop_last() =~= colors@.take(i as int));
            assert forall|k: int| 0 <= k < entries@.len() implies entries_view(entries@)[k]
                == convert_spec(colors@.take(i + 1))[k] by {
                if k < i {
                    assert(entries_view(prev)[k] == convert_spec(colors@.take(i as int))[k]);
                    assert(entries_view(entries@)[k] == entries_view(prev)[k]);
                    assert(convert_spec(colors@.take(i + 1))[k] == convert_spec(
                        colors@.take(i as int),
                    )[k]);
                }
            }
            assert(entries_view(entries@) =~= convert_spec(colors@.take(i + 1)));
        }
    }
    proof {
        assert(colors@.take(n as int) =~= colors@);
    }
    Palette { entries }
}

/// The sixteen-entry default palette, as (name characters, color) pairs.
pub open spec fn standard_palette() -> Seq<(Seq<char>, RGB)> {
    seq![
        ("white"@, RGB { red: 249, green: 255, blue: 254 }),
        ("orange"@, RGB { red: 249, green: 128, blue: 29 }),
        ("magenta"@, RGB { red: 199, green: 78, blue: 189 }),
        ("light_blue"@, RGB { red: 58, green: 179, blue: 218 }),
        ("yellow"@, RGB { red: 254, green: 216, blue: 61 }),
        ("lime"@, RGB { red: 128, green: 199, blue: 31 }),
        ("pink"@, RGB { red: 243, green: 139, blue: 170 }),
        ("gray"@, RGB { red: 71, green: 79, blue: 82 }),
        ("light_gray"@, RGB { red: 157, green: 157, blue: 151 }),
        ("cyan"@, RGB { red: 22, green: 156, blue: 156 }),
        ("purple"@, RGB { red: 137, green: 50, blue: 184 }),
        ("blue"@, RGB { red: 60, green: 68, blue: 170 }),
        ("brown"@, RGB { red: 131, green: 84, blue: 50 }),
        ("green"@, RGB { red: 94, green: 124, blue: 22 }),
        ("red"@, RGB { red: 176, green: 46, blue: 38 }),
        ("black"@, RGB { red: 29, green: 29, blue: 33 }),
    ]
}

/// The default table of sixteen named base colors, as raw (name, channels)
/// pairs in the tie-break order of [`standard_palette`].
pub fn get_standard_colors() -> (r: Vec<(String, [u8; 3])>)
    ensures
        convert_spec(r@) == standard_palette(),
{
    let mut v: Vec<(String, [u8; 3])> = Vec::new();
    v.push(("white".to_owned(), [249, 255, 254]));
    v.push(("orange".to_owned(), [249, 128, 29]));
    v.push(("magenta".to_owned(), [199, 78, 189]));
    v.push(("light_blue".to_owned(), [58, 179, 218]));
    v.push(("yellow".to_owned(), [254, 216, 61]));
    v.push(("lime".to_owned(), [128, 199, 31]));
    v.push(("pink".to_owned(), [243, 139, 170]));
    v.push(("gray".to_owned(), [71, 79, 82]));
    v.push(("light_gray".to_owned(), [157, 157, 151]));
    v.push(("cyan".to_owned(), [22, 156, 156]));
    v.push(("purple".to_owned(), [137, 50, 184]));
    v.push(("blue".to_owned(), [60, 68, 170]));
    v.push(("brown".to_owned(), [131, 84, 50]));
    v.push(("green".to_owned(), [94, 124, 22]));
    v.push(("red".to_owned(), [176, 46, 38]));
    v.push(("black".to_owned(), [29, 29, 33]));
    proof {
        assert(convert_spec(v@) =~= standard_palette());
    }
    v
}

} // verus!
