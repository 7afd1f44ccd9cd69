//! Region names: the presets, the IHO Sea Areas lookup, the choice between a
//! named region and `auto`, and the word-level "did you mean" for a name that
//! matches nothing.
//!
//! Resolution order is fixed: a preset first, then an IHO Sea Areas name, both
//! compared ASCII case-insensitively. An unknown name is an error rather than a
//! silent fall back to the whole globe, and the error suggests the near misses.
use vstd::prelude::*;

use crate::text::{
    ascii_lower_seq, chars_of, contains, contains_chars, eq_ignore_ascii_case, is_alphanumeric,
    join, join_chars, lower_ascii, lowered, same_chars, to_lowercase, to_text, utf8_size,
    utf8_size_at_least, word_char,
};
use vstd::string::StringExecFns;

verus! {

broadcast use vstd::seq_lib::group_filter_ensures;

/// The `--region` value that derives the box and center from the input points.
pub const AUTO_REGION: &'static str = "auto";

/// Every preset name, in the order they are documented.
pub const PRESET_NAMES: [&'static str; 7] = [
    "global",
    "baltic",
    "norway",
    "arctic",
    "atlantic",
    "europe",
    "mediterranean",
];

/// The preset names as character sequences.
pub open spec fn preset_names() -> Seq<Seq<char>> {
    seq!["global"@, "baltic"@, "norway"@, "arctic"@, "atlantic"@, "europe"@, "mediterranean"@]
}

/// A preset region box. Every preset is drawn on whole degrees, so its bounds
/// are whole numbers of degrees of longitude and latitude.
#[derive(Clone, Copy, Debug, PartialEq, Eq, Structural)]
pub struct PresetBox {
    pub min_lon: i32,
    pub max_lon: i32,
    pub min_lat: i32,
    pub max_lat: i32,
}

/// The Baltic Sea box, the `baltic` region preset.
pub open spec fn baltic_box() -> PresetBox {
    PresetBox { min_lon: 8i32, max_lon: 31i32, min_lat: 53i32, max_lat: 66i32 }
}

/// The `norway` preset.
pub open spec fn norway_box() -> PresetBox {
    PresetBox { min_lon: -10i32, max_lon: 45i32, min_lat: 55i32, max_lat: 85i32 }
}

/// The `arctic` preset.
pub open spec fn arctic_box() -> PresetBox {
    PresetBox { min_lon: -180i32, max_lon: 180i32, min_lat: 60i32, max_lat: 90i32 }
}

/// The `atlantic` preset.
pub open spec fn atlantic_box() -> PresetBox {
    PresetBox { min_lon: -83i32, max_lon: 20i32, min_lat: -60i32, max_lat: 70i32 }
}

/// The `europe` preset.
pub open spec fn europe_box() -> PresetBox {
    PresetBox { min_lon: -25i32, max_lon: 45i32, min_lat: 34i32, max_lat: 72i32 }
}

/// The `mediterranean` preset.
pub open spec fn mediterranean_box() -> PresetBox {
    PresetBox { min_lon: -6i32, max_lon: 37i32, min_lat: 30i32, max_lat: 46i32 }
}

/// The whole globe, the `global` preset.
pub open spec fn global_box() -> PresetBox {
    PresetBox { min_lon: -180i32, max_lon: 180i32, min_lat: -90i32, max_lat: 90i32 }
}

/// The Baltic Sea box, the `baltic` region preset.
pub fn baltic() -> (r: PresetBox)
    ensures
        r == baltic_box(),
{
    PresetBox { min_lon: 8, max_lon: 31, min_lat: 53, max_lat: 66 }
}

/// The whole globe, used as the default when no region is set.
pub fn global() -> (r: PresetBox)
    ensures
        r == global_box(),
{
    PresetBox { min_lon: -180, max_lon: 180, min_lat: -90, max_lat: 90 }
}

/// The preset a name selects, ASCII case-insensitively.
pub open spec fn preset_of(name: Seq<char>) -> Option<PresetBox> {
    let n = ascii_lower_seq(name);
    if n == "baltic"@ {
        Some(baltic_box())
    } else if n == "norway"@ {
        Some(norway_box())
    } else if n == "arctic"@ {
        Some(arctic_box())
    } else if n == "atlantic"@ {
        Some(atlantic_box())
    } else if n == "europe"@ {
        Some(europe_box())
    } else if n == "mediterranean"@ {
        Some(mediterranean_box())
    } else if n == "global"@ {
        Some(global_box())
    } else {
        None
    }
}

/// Whether `a` and `b` are equal ignoring ASCII case (`str::eq_ignore_ascii_case`).
pub fn same_ignoring_ascii_case(a: &[char], b: &[char]) -> (r: bool)
    ensures
        r == eq_ignore_ascii_case(a@, b@),
{
    let la = lower_ascii(a);
    let lb = lower_ascii(b);
    same_chars(la.as_slice(), lb.as_slice())
}

/// Named region presets, matched ASCII case-insensitively.
pub fn preset_bbox(name: &str) -> (r: Option<PresetBox>)
    ensures
        r == preset_of(name@),
{
    let lowered = lower_ascii(chars_of(name).as_slice());
    let n = lowered.as_slice();
    if same_chars(n, chars_of("baltic").as_slice()) {
        Some(PresetBox { min_lon: 8, max_lon: 31, min_lat: 53, max_lat: 66 })
    } else if same_chars(n, chars_of("norway").as_slice()) {
        Some(PresetBox { min_lon: -10, max_lon: 45, min_lat: 55, max_lat: 85 })
    } else if same_chars(n, chars_of("arctic").as_slice()) {
        Some(PresetBox { min_lon: -180, max_lon: 180, min_lat: 60, max_lat: 90 })
    } else if same_chars(n, chars_of("atlantic").as_slice()) {
        Some(PresetBox { min_lon: -83, max_lon: 20, min_lat: -60, max_lat: 70 })
    } else if same_chars(n, chars_of("europe").as_slice()) {
        Some(PresetBox { min_lon: -25, max_lon: 45, min_lat: 34, max_lat: 72 })
    } else if same_chars(n, chars_of("mediterranean").as_slice()) {
        Some(PresetBox { min_lon: -6, max_lon: 37, min_lat: 30, max_lat: 46 })
    } else if same_chars(n, chars_of("global").as_slice()) {
        Some(PresetBox { min_lon: -180, max_lon: 180, min_lat: -90, max_lat: 90 })
    } else {
        None
    }
}

/// One IHO Sea Areas entry as the name lookup sees it: its name, and whether
/// its box crosses the antimeridian (and so cannot serve as a region box).
#[derive(Debug)]
pub struct IhoEntry {
    pub name: String,
    pub crosses: bool,
}

/// The names of a table of IHO entries.
pub open spec fn iho_names(table: Seq<IhoEntry>) -> Seq<Seq<char>> {
    table.map_values(|e: IhoEntry| e.name@)
}

/// The first entry at or after `start` whose name matches, ASCII
/// case-insensitively.
pub open spec fn iho_index_from(table: Seq<IhoEntry>, name: Seq<char>, start: int) -> Option<int>
    decreases table.len() - start,
{
    if start < 0 || start >= table.len() {
        None
    } else if eq_ignore_ascii_case(table[start].name@, name) {
        Some(start)
    } else {
        iho_index_from(table, name, start + 1)
    }
}

/// The first entry of the table whose name matches, ASCII case-insensitively.
pub open spec fn iho_index(table: Seq<IhoEntry>, name: Seq<char>) -> Option<int> {
    iho_index_from(table, name, 0)
}

/// Look up an IHO Sea Areas name, case-insensitively: the index of the first
/// entry of `table` whose name matches.
pub fn iho_area(name: &str, table: &[IhoEntry]) -> (r: Option<usize>)
    ensures
        r matches Some(i) ==> i < table.len() && iho_index(table@, name@) == Some(i as int),
        r is None ==> iho_index(table@, name@) is None,
{
    let n = chars_of(name);
    let mut i: usize = 0;
    while i < table.len()
        invariant
            i <= table.len(),
            n@ == name@,
            iho_index(table@, name@) == iho_index_from(table@, name@, i as int),
        decreases table.len() - i,
    {
        let candidate = chars_of(table[i].name.as_str());
        if same_ignoring_ascii_case(candidate.as_slice(), n.as_slice()) {
            return Some(i);
        }
        i = i + 1;
    }
    None
}

/// Where a named region comes from: a preset box, or an entry of the IHO table.
#[derive(Clone, Copy, Debug, PartialEq, Eq, Structural)]
pub enum RegionBox {
    Preset(PresetBox),
    Iho(usize),
}

/// Why a region name cannot be used.
#[derive(Debug)]
pub enum RegionError {
    /// The IHO entry at this index crosses the antimeridian, which no region box
    /// can express.
    CrossesAntimeridian(usize),
    /// The name is neither a preset nor an IHO name; the message says so and
    /// suggests the near misses.
    Unknown(String),
}

/// What a region name resolves to.
pub enum RegionLookup {
    Found(RegionBox),
    Crossing(usize),
    Unknown,
}

/// Resolution of a region name: a preset first, then an IHO Sea Areas name;
/// an IHO area crossing the antimeridian is refused.
pub open spec fn region_lookup(name: Seq<char>, table: Seq<IhoEntry>) -> RegionLookup {
    match preset_of(name) {
        Some(b) => RegionLookup::Found(RegionBox::Preset(b)),
        None => match iho_index(table, name) {
            Some(i) => if table[i].crosses {
                RegionLookup::Crossing(i as usize)
            } else {
                RegionLookup::Found(RegionBox::Iho(i as usize))
            },
            None => RegionLookup::Unknown,
        },
    }
}

/// Words too common among sea names to narrow anything down.
pub const GENERIC_WORDS: [&'static str; 8] = [
    "sea",
    "ocean",
    "gulf",
    "bay",
    "strait",
    "channel",
    "the",
    "of",
];

/// The generic words as character sequences.
pub open spec fn generic_words() -> Seq<Seq<char>> {
    seq!["sea"@, "ocean"@, "gulf"@, "bay"@, "strait"@, "channel"@, "the"@, "of"@]
}

/// The pieces `str::split` yields when splitting `s` at every character that is
/// not alphanumeric: one more piece than there are separators, empty pieces
/// included.
pub open spec fn split_pieces(s: Seq<char>) -> Seq<Seq<char>>
    decreases s.len(),
{
    if s.len() == 0 {
        seq![Seq::empty()]
    } else {
        let p = split_pieces(s.drop_last());
        if !word_char(s.last()) {
            p.push(Seq::empty())
        } else {
            p.update(p.len() - 1, p.last().push(s.last()))
        }
    }
}

/// A piece of the typed name that is worth matching on: at least three bytes
/// long and not one of the generic words.
pub open spec fn is_query_word(w: Seq<char>) -> bool {
    utf8_size(w) >= 3 && !generic_words().contains(w)
}

/// The distinctive words of an already lower-cased name.
pub open spec fn words_in(lower: Seq<char>) -> Seq<Seq<char>> {
    split_pieces(lower).filter(|w: Seq<char>| is_query_word(w))
}

/// The distinctive words of a typed region name, lower-cased.
pub open spec fn query_words(name: Seq<char>) -> Seq<Seq<char>> {
    words_in(lowered(name))
}

/// Every name a suggestion can come from: the presets, then the IHO names.
pub open spec fn known_region_names(table: Seq<IhoEntry>) -> Seq<Seq<char>> {
    preset_names() + iho_names(table)
}

/// A candidate is near the typed name when, lower-cased, it contains the whole
/// lower-cased name or one of its distinctive words.
pub open spec fn is_near(cand: Seq<char>, lower: Seq<char>, words: Seq<Seq<char>>) -> bool {
    let c = lowered(cand);
    contains(c, lower) || exists|k: int| 0 <= k < words.len() && contains(c, #[trigger] words[k])
}

/// The candidates near an already lower-cased name, in list order.
pub open spec fn near_in(lower: Seq<char>, cands: Seq<Seq<char>>) -> Seq<Seq<char>> {
    let words = words_in(lower);
    cands.filter(|c: Seq<char>| is_near(c, lower, words))
}

/// At most the first five of a list.
pub open spec fn first_five(s: Seq<Seq<char>>) -> Seq<Seq<char>> {
    if s.len() > 5 {
        s.take(5)
    } else {
        s
    }
}

/// The hint for an already lower-cased name among the candidates: the first
/// five near ones, or, when none is near, where to look instead.
pub open spec fn hint(lower: Seq<char>, cands: Seq<Seq<char>>) -> Seq<char> {
    let near = first_five(near_in(lower, cands));
    if near.len() == 0 {
        " Use a preset ("@ + join(preset_names(), ", "@)
            + "), an IHO Sea Areas name, or 'auto'. Run 'seastamp regions' to list them."@
    } else {
        " Did you mean: "@ + join(near, ", "@) + "?"@
    }
}

/// Every known name near the typed one, in list order.
pub open spec fn all_near_names(name: Seq<char>, table: Seq<IhoEntry>) -> Seq<Seq<char>> {
    near_in(lowered(name), known_region_names(table))
}

/// The first five known names near the typed one.
pub open spec fn near_names(name: Seq<char>, table: Seq<IhoEntry>) -> Seq<Seq<char>> {
    first_five(all_near_names(name, table))
}

/// The hint appended to an unknown-region error.
pub open spec fn suggestion(name: Seq<char>, table: Seq<IhoEntry>) -> Seq<char> {
    hint(lowered(name), known_region_names(table))
}

/// The whole unknown-region error message.
pub open spec fn unknown_region_message(name: Seq<char>, table: Seq<IhoEntry>) -> Seq<char> {
    "unknown region '"@ + name + "'."@ + suggestion(name, table)
}

/// The presets and the IHO names, in that order.
pub fn known_names(table: &[IhoEntry]) -> (r: Vec<String>)
    ensures
        r@.map_values(|s: String| s@) == known_region_names(table@),
{
    let mut out: Vec<String> = Vec::new();
    let names = PRESET_NAMES;
    assert(names@.map_values(|s: &str| s@) =~= preset_names());
    let mut i: usize = 0;
    while i < 7
        invariant
            i <= 7,
            names == PRESET_NAMES,
            names@.map_values(|s: &str| s@) == preset_names(),
            out@.map_values(|s: String| s@) == preset_names().take(i as int),
        decreases 7 - i,
    {
        let ghost before = out@;
        let name = String::from_str(names[i]);
        assert(name@ == preset_names()[i as int]);
        out.push(name);
        i = i + 1;
        assert(out@.map_values(|s: String| s@) =~= before.map_values(|s: String| s@).push(name@));
        assert(preset_names().take(i as int) =~= preset_names().take(i - 1).push(
            preset_names()[i - 1],
        ));
    }
    assert(preset_names().take(7) =~= preset_names());
    let mut j: usize = 0;
    while j < table.len()
        invariant
            j <= table.len(),
            out@.map_values(|s: String| s@) == preset_names() + iho_names(table@).take(j as int),
        decreases table.len() - j,
    {
        let ghost before = out@;
        let name = table[j].name.clone();
        assert(name@ == iho_names(table@)[j as int]);
        out.push(name);
        j = j + 1;
        assert(out@.map_values(|s: String| s@) =~= before.map_values(|s: String| s@).push(name@));
        assert(iho_names(table@).take(j as int) =~= iho_names(table@).take(j - 1).push(
            iho_names(table@)[j - 1],
        ));
        assert(out@.map_values(|s: String| s@) =~= preset_names() + iho_names(table@).take(
            j as int,
        ));
    }
    assert(iho_names(table@).take(table.len() as int) =~= iho_names(table@));
    out
}

/// Whether `w` is one of the generic words.
fn is_generic_word(w: &[char]) -> (r: bool)
    ensures
        r == generic_words().contains(w@),
{
    let words = GENERIC_WORDS;
    assert(words@.map_values(|s: &str| s@) =~= generic_words());
    let mut i: usize = 0;
    while i < 8
        invariant
            i <= 8,
            words == GENERIC_WORDS,
            words@.map_values(|s: &str| s@) == generic_words(),
            forall|k: int| 0 <= k < i ==> generic_words()[k] != w@,
        decreases 8 - i,
    {
        let g = chars_of(words[i]);
        assert(g@ == generic_words()[i as int]);
        if same_chars(g.as_slice(), w) {
            assert(generic_words()[i as int] == w@);
            return true;
        }
        i = i + 1;
    }
    false
}

/// Whether a piece of the typed name is worth matching on.
fn is_query_piece(w: &[char]) -> (r: bool)
    ensures
        r == is_query_word(w@),
{
    utf8_size_at_least(w, 3) && !is_generic_word(w)
}

proof fn lemma_split_pieces_nonempty(s: Seq<char>)
    ensures
        split_pieces(s).len() >= 1,
    decreases s.len(),
{
    if s.len() > 0 {
        lemma_split_pieces_nonempty(s.drop_last());
    }
}

/// The distinctive words of an already lower-cased name.
fn words_of(lower: &[char]) -> (r: Vec<Vec<char>>)
    ensures
        r@.map_values(|v: Vec<char>| v@) == words_in(lower@),
{
    let ghost keep = |w: Seq<char>| is_query_word(w);
    let mut done: Vec<Vec<char>> = Vec::new();
    let mut cur: Vec<char> = Vec::new();
    let mut i: usize = 0;
    assert(lower@.take(0) =~= Seq::<char>::empty());
    assert(split_pieces(lower@.take(0)).drop_last() =~= Seq::<Seq<char>>::empty());
    while i < lower.len()
        invariant
            i <= lower.len(),
            keep == (|w: Seq<char>| is_query_word(w)),
            split_pieces(lower@.take(i as int)).len() >= 1,
            cur@ == split_pieces(lower@.take(i as int)).last(),
            done@.map_values(|v: Vec<char>| v@) == split_pieces(lower@.take(i as int)).drop_last().filter(
                keep,
            ),
        decreases lower.len() - i,
    {
        let ghost p = split_pieces(lower@.take(i as int));
        let c = lower[i];
        assert(lower@.take(i + 1).drop_last() =~= lower@.take(i as int));
        assert(lower@.take(i + 1).last() == c);
        if !is_alphanumeric(c) {
            let ghost before = done@;
            if is_query_piece(cur.as_slice()) {
                done.push(cur);
                assert(done@.map_values(|v: Vec<char>| v@) =~= before.map_values(
                    |v: Vec<char>| v@,
                ).push(p.last()));
            }
            cur = Vec::new();
            proof {
                let q = split_pieces(lower@.take(i + 1));
                assert(q == p.push(Seq::empty()));
                assert(q.drop_last() =~= p);
                assert(p =~= p.drop_last().push(p.last()));
                p.drop_last().lemma_filter_push(p.last(), keep);
                assert(cur@ =~= q.last());
            }
        } else {
            cur.push(c);
            proof {
                let q = split_pieces(lower@.take(i + 1));
                assert(q == p.update(p.len() - 1, p.last().push(c)));
                assert(q.drop_last() =~= p.drop_last());
                assert(cur@ =~= q.last());
            }
        }
        i = i + 1;
        proof {
            lemma_split_pieces_nonempty(lower@.take(i as int));
        }
    }
    assert(lower@.take(lower.len() as int) =~= lower@);
    let ghost p = split_pieces(lower@);
    let ghost before = done@;
    if is_query_piece(cur.as_slice()) {
        done.push(cur);
        assert(done@.map_values(|v: Vec<char>| v@) =~= before.map_values(|v: Vec<char>| v@).push(
            p.last(),
        ));
    }
    proof {
        assert(p =~= p.drop_last().push(p.last()));
        p.drop_last().lemma_filter_push(p.last(), keep);
    }
    done
}

/// Whether one of `words` occurs in `c`.
fn any_word_in(c: &[char], words: &Vec<Vec<char>>) -> (r: bool)
    ensures
        r == exists|k: int| 0 <= k < words@.len() && contains(c@, #[trigger] words@[k]@),
{
    let mut k: usize = 0;
    while k < words.len()
        invariant
            k <= words.len(),
            forall|j: int| 0 <= j < k ==> !contains(c@, #[trigger] words@[j]@),
        decreases words.len() - k,
    {
        if contains_chars(c, words[k].as_slice()) {
            return true;
        }
        k = k + 1;
    }
    false
}

/// The hint for a typed name that is already lower-cased: the first five
/// candidates that, lower-cased, contain the whole name or one of its
/// distinctive words, or, when none does, where to look instead. Matching per
/// word rather than on the whole string is what catches "Barent Sea" for
/// "Barentsz Sea", where neither name contains the other.
pub fn near_miss_hint(lower: &str, cands: &[String]) -> (r: String)
    ensures
        r@ == hint(lower@, cands@.map_values(|s: String| s@)),
{
    let lower = chars_of(lower);
    let words = words_of(lower.as_slice());
    let ghost wv = words@.map_values(|v: Vec<char>| v@);
    let ghost pred = |c: Seq<char>| is_near(c, lower@, words_in(lower@));
    let ghost cv = cands@.map_values(|s: String| s@);
    let mut near: Vec<Vec<char>> = Vec::new();
    let mut i: usize = 0;
    assert(cv.take(0).filter(pred) =~= Seq::<Seq<char>>::empty()) by {
        reveal(Seq::filter);
    }
    while i < cands.len()
        invariant
            i <= cands.len(),
            cv == cands@.map_values(|s: String| s@),
            wv == words@.map_values(|v: Vec<char>| v@),
            wv == words_in(lower@),
            pred == (|c: Seq<char>| is_near(c, lower@, words_in(lower@))),
            near@.map_values(|v: Vec<char>| v@) == cv.take(i as int).filter(pred),
        decreases cands.len() - i,
    {
        let cl_text = to_lowercase(cands[i].as_str());
        let cl = chars_of(cl_text.as_str());
        let hit = contains_chars(cl.as_slice(), lower.as_slice()) || any_word_in(
            cl.as_slice(),
            &words,
        );
        proof {
            assert(cands@[i as int]@ == cv[i as int]);
            assert forall|k: int| 0 <= k < words@.len() implies #[trigger] words@[k]@ == wv[k] by {}
            assert(hit == pred(cv[i as int]));
            assert(cv.take(i + 1) =~= cv.take(i as int).push(cv[i as int]));
            cv.take(i as int).lemma_filter_push(cv[i as int], pred);
        }
        let ghost before = near@;
        if hit {
            let original = chars_of(cands[i].as_str());
            near.push(original);
            assert(near@.map_values(|v: Vec<char>| v@) =~= before.map_values(|v: Vec<char>| v@).push(
                cv[i as int],
            ));
        }
        i = i + 1;
    }
    assert(cv.take(cands.len() as int) =~= cv);
    assert(near@.map_values(|v: Vec<char>| v@) == near_in(lower@, cv));
    if near.len() > 5 {
        near.truncate(5);
        assert(near@.map_values(|v: Vec<char>| v@) =~= near_in(lower@, cv).take(5));
    }
    assert(near@.map_values(|v: Vec<char>| v@) == first_five(near_in(lower@, cv)));
    if near.len() == 0 {
        let mut presets: Vec<Vec<char>> = Vec::new();
        let names = PRESET_NAMES;
        assert(names@.map_values(|s: &str| s@) =~= preset_names());
        let mut k: usize = 0;
        while k < 7
            invariant
                k <= 7,
                names == PRESET_NAMES,
                names@.map_values(|s: &str| s@) == preset_names(),
                presets@.map_values(|v: Vec<char>| v@) == preset_names().take(k as int),
            decreases 7 - k,
        {
            let ghost before = presets@;
            let p = chars_of(names[k]);
            assert(p@ == preset_names()[k as int]);
            presets.push(p);
            k = k + 1;
            assert(presets@.map_values(|v: Vec<char>| v@) =~= before.map_values(
                |v: Vec<char>| v@,
            ).push(p@));
            assert(preset_names().take(k as int) =~= preset_names().take(k - 1).push(
                preset_names()[k - 1],
            ));
        }
        assert(preset_names().take(7) =~= preset_names());
        let listed = join_chars(&presets, chars_of(", ").as_slice());
        let mut out = String::from_str(" Use a preset (");
        out.append(to_text(listed.as_slice()).as_str());
        out.append("), an IHO Sea Areas name, or 'auto'. Run 'seastamp regions' to list them.");
        out
    } else {
        let listed = join_chars(&near, chars_of(", ").as_slice());
        let mut out = String::from_str(" Did you mean: ");
        out.append(to_text(listed.as_slice()).as_str());
        out.append("?");
        out
    }
}

/// A short hint listing names that share a distinctive word with what was
/// typed, so a near miss among the known names is easy to fix.
pub fn did_you_mean(name: &str, table: &[IhoEntry]) -> (r: String)
    ensures
        r@ == suggestion(name@, table@),
{
    let lower = to_lowercase(name);
    let cands = known_names(table);
    near_miss_hint(lower.as_str(), cands.as_slice())
}

/// Resolve a `--region` name: a preset first, then an IHO Sea Areas name. An
/// unknown name is an error rather than a silent fall back to the whole globe,
/// and an IHO area crossing the antimeridian is refused because no region box
/// can express it.
pub fn region_bbox(name: &str, table: &[IhoEntry]) -> (r: Result<RegionBox, RegionError>)
    ensures
        match r {
            Ok(b) => region_lookup(name@, table@) == RegionLookup::Found(b),
            Err(RegionError::CrossesAntimeridian(i)) => region_lookup(name@, table@)
                == RegionLookup::Crossing(i),
            Err(RegionError::Unknown(msg)) => region_lookup(name@, table@) == RegionLookup::Unknown
                && msg@ == unknown_region_message(name@, table@),
        },
{
    if let Some(b) = preset_bbox(name) {
        return Ok(RegionBox::Preset(b));
    }
    if let Some(i) = iho_area(name, table) {
        if table[i].crosses {
            return Err(RegionError::CrossesAntimeridian(i));
        }
        return Ok(RegionBox::Iho(i));
    }
    let mut msg = String::from_str("unknown region '");
    msg.append(name);
    msg.append("'.");
    msg.append(did_you_mean(name, table).as_str());
    Err(RegionError::Unknown(msg))
}

} // verus!

verus! {

/// How the region is settled: derived from the points, or a named region.
#[derive(Clone, Copy, Debug, PartialEq, Eq, Structural)]
pub enum RegionChoice {
    /// `--region auto`, or no region name at all: the box and the projection
    /// center are derived from the input points once they are read.
    Auto,
    /// A preset or an IHO Sea Areas name.
    Named(RegionBox),
}

/// The region name in force: the command line's if given, else the config
/// file's.
pub open spec fn chosen_region_name(cli: Option<&str>, file: Option<&str>) -> Option<Seq<char>> {
    match cli {
        Some(n) => Some(n@),
        None => match file {
            Some(n) => Some(n@),
            None => None,
        },
    }
}

/// Settle the region from the `--region` flag and the config file's `region`,
/// the flag winning. No name at all, or `auto` in any ASCII case, means the
/// region is derived from the points; any other name must resolve through
/// [`region_bbox`], whose errors are passed on.
pub fn resolve_region(cli: Option<&str>, file: Option<&str>, table: &[IhoEntry]) -> (r: Result<
    RegionChoice,
    RegionError,
>)
    ensures
        match chosen_region_name(cli, file) {
            None => r == Ok::<RegionChoice, RegionError>(RegionChoice::Auto),
            Some(n) => if eq_ignore_ascii_case(n, AUTO_REGION@) {
                r matches Ok(RegionChoice::Auto)
            } else {
                match r {
                    Ok(RegionChoice::Auto) => false,
                    Ok(RegionChoice::Named(b)) => region_lookup(n, table@) == RegionLookup::Found(b),
                    Err(RegionError::CrossesAntimeridian(i)) => region_lookup(n, table@)
                        == RegionLookup::Crossing(i),
                    Err(RegionError::Unknown(msg)) => region_lookup(n, table@) == RegionLookup::Unknown
                        && msg@ == unknown_region_message(n, table@),
                }
            },
        },
{
    let name = match cli {
        Some(n) => n,
        None => match file {
            Some(n) => n,
            None => return Ok(RegionChoice::Auto),
        },
    };
    let typed = chars_of(name);
    if same_ignoring_ascii_case(typed.as_slice(), chars_of(AUTO_REGION).as_slice()) {
        return Ok(RegionChoice::Auto);
    }
    match region_bbox(name, table) {
        Ok(b) => Ok(RegionChoice::Named(b)),
        Err(e) => Err(e),
    }
}

// ---------------------------------------------------------------------------
// Laws
// ---------------------------------------------------------------------------

proof fn lemma_presets_are_lowercase()
    ensures
        forall|i: int| 0 <= i < 7 ==> #[trigger] ascii_lower_seq(preset_names()[i]) == preset_names()[i],
{
    reveal_strlit("global");
    reveal_strlit("baltic");
    reveal_strlit("norway");
    reveal_strlit("arctic");
    reveal_strlit("atlantic");
    reveal_strlit("europe");
    reveal_strlit("mediterranean");
    assert(ascii_lower_seq("global"@) =~= "global"@);
    assert(ascii_lower_seq("baltic"@) =~= "baltic"@);
    assert(ascii_lower_seq("norway"@) =~= "norway"@);
    assert(ascii_lower_seq("arctic"@) =~= "arctic"@);
    assert(ascii_lower_seq("atlantic"@) =~= "atlantic"@);
    assert(ascii_lower_seq("europe"@) =~= "europe"@);
    assert(ascii_lower_seq("mediterranean"@) =~= "mediterranean"@);
}

proof fn lemma_iho_index_found(table: Seq<IhoEntry>, name: Seq<char>, start: int, j: int)
    requires
        0 <= start <= j < table.len(),
        eq_ignore_ascii_case(table[j].name@, name),
    ensures
        iho_index_from(table, name, start) is Some,
    decreases j - start,
{
    if start < j && !eq_ignore_ascii_case(table[start].name@, name) {
        lemma_iho_index_found(table, name, start + 1, j);
    }
}

proof fn lemma_iho_index_same_case(table: Seq<IhoEntry>, a: Seq<char>, b: Seq<char>, start: int)
    requires
        ascii_lower_seq(a) == ascii_lower_seq(b),
    ensures
        iho_index_from(table, a, start) == iho_index_from(table, b, start),
    decreases table.len() - start,
{
    if 0 <= start < table.len() {
        lemma_iho_index_same_case(table, a, b, start + 1);
    }
}

/// Every name `--region` offers resolves: it is `auto`, or it names a preset or
/// an IHO area (possibly one refused for crossing the antimeridian), and is
/// never reported as unknown.
pub proof fn lemma_offered_names_resolve(table: Seq<IhoEntry>, k: int)
    requires
        0 <= k < crate::cli::offered_region_names(table).len(),
    ensures
        ({
            let n = crate::cli::offered_region_names(table)[k];
            eq_ignore_ascii_case(n, AUTO_REGION@) || !(region_lookup(n, table) is Unknown)
        }),
{
    let names = crate::cli::offered_region_names(table);
    let n = names[k];
    if k == 0 {
        assert(n == AUTO_REGION@);
    } else if k < 8 {
        lemma_presets_are_lowercase();
        assert(n == preset_names()[k - 1]);
        assert(ascii_lower_seq(n) == n);
        assert(preset_of(n) is Some);
    } else {
        let j = k - 8;
        assert(n == iho_names(table)[j]);
        assert(n == table[j].name@);
        lemma_iho_index_found(table, n, 0, j);
    }
}

/// Region names are matched ASCII case-insensitively: two names that agree
/// after ASCII lower-casing resolve to the same region, or fail the same way.
pub proof fn lemma_region_lookup_ignores_ascii_case(a: Seq<char>, b: Seq<char>, table: Seq<IhoEntry>)
    requires
        ascii_lower_seq(a) == ascii_lower_seq(b),
    ensures
        region_lookup(a, table) == region_lookup(b, table),
{
    lemma_iho_index_same_case(table, a, b, 0);
}

/// A preset name wins over an IHO area of the same name.
pub proof fn lemma_presets_win(name: Seq<char>, table: Seq<IhoEntry>)
    requires
        preset_of(name) is Some,
    ensures
        region_lookup(name, table) == RegionLookup::Found(RegionBox::Preset(preset_of(name)->0)),
{
}

/// A suggestion lists at most five names, and every one of them is a name
/// `--region` knows.
pub proof fn lemma_suggestions_are_known_names(name: Seq<char>, table: Seq<IhoEntry>)
    ensures
        near_names(name, table).len() <= 5,
        forall|k: int|
            0 <= k < near_names(name, table).len() ==> known_region_names(table).contains(
                #[trigger] near_names(name, table)[k],
            ),
{
    let all = all_near_names(name, table);
    let lower = lowered(name);
    let words = words_in(lower);
    let pred = |c: Seq<char>| is_near(c, lower, words);
    assert(all == known_region_names(table).filter(pred));
    assert forall|k: int| 0 <= k < all.len() implies known_region_names(table).contains(
        #[trigger] all[k],
    ) by {
        known_region_names(table).lemma_filter_contains_rev(pred, all[k]);
    }
}

/// Every preset name has a box: the preset list and the preset table agree.
pub proof fn lemma_every_preset_has_a_box(i: int)
    requires
        0 <= i < preset_names().len(),
    ensures
        preset_of(preset_names()[i]) is Some,
{
    lemma_presets_are_lowercase();
    assert(ascii_lower_seq(preset_names()[i]) == preset_names()[i]);
}


/// Each preset name, in any ASCII case, selects its documented box, and no
/// other name selects a preset.
pub proof fn lemma_preset_boxes_are_documented(name: Seq<char>)
    ensures
        ascii_lower_seq(name) == "global"@ ==> preset_of(name) == Some(
            PresetBox { min_lon: -180i32, max_lon: 180i32, min_lat: -90i32, max_lat: 90i32 },
        ),
        ascii_lower_seq(name) == "baltic"@ ==> preset_of(name) == Some(
            PresetBox { min_lon: 8i32, max_lon: 31i32, min_lat: 53i32, max_lat: 66i32 },
        ),
        ascii_lower_seq(name) == "norway"@ ==> preset_of(name) == Some(
            PresetBox { min_lon: -10i32, max_lon: 45i32, min_lat: 55i32, max_lat: 85i32 },
        ),
        ascii_lower_seq(name) == "arctic"@ ==> preset_of(name) == Some(
            PresetBox { min_lon: -180i32, max_lon: 180i32, min_lat: 60i32, max_lat: 90i32 },
        ),
        ascii_lower_seq(name) == "atlantic"@ ==> preset_of(name) == Some(
            PresetBox { min_lon: -83i32, max_lon: 20i32, min_lat: -60i32, max_lat: 70i32 },
        ),
        ascii_lower_seq(name) == "europe"@ ==> preset_of(name) == Some(
            PresetBox { min_lon: -25i32, max_lon: 45i32, min_lat: 34i32, max_lat: 72i32 },
        ),
        ascii_lower_seq(name) == "mediterranean"@ ==> preset_of(name) == Some(
            PresetBox { min_lon: -6i32, max_lon: 37i32, min_lat: 30i32, max_lat: 46i32 },
        ),
        !preset_names().contains(ascii_lower_seq(name)) ==> preset_of(name) is None,
{
    reveal_strlit("global");
    reveal_strlit("baltic");
    reveal_strlit("norway");
    reveal_strlit("arctic");
    reveal_strlit("atlantic");
    reveal_strlit("europe");
    reveal_strlit("mediterranean");
    assert("global"@[0] == 'g' && "baltic"@[0] == 'b' && "norway"@[0] == 'n' && "arctic"@[0] == 'a'
        && "europe"@[0] == 'e');
    assert("global"@ != "baltic"@ && "norway"@ != "baltic"@ && "arctic"@ != "baltic"@ && "europe"@
        != "baltic"@);
    assert("global"@ != "norway"@ && "arctic"@ != "norway"@ && "europe"@ != "norway"@);
    assert("global"@ != "arctic"@ && "europe"@ != "arctic"@ && "global"@ != "europe"@);
    assert("atlantic"@.len() == 8 && "mediterranean"@.len() == 13 && "baltic"@.len() == 6
        && "norway"@.len() == 6 && "arctic"@.len() == 6 && "europe"@.len() == 6);
    assert("atlantic"@ != "baltic"@ && "atlantic"@ != "norway"@ && "atlantic"@ != "arctic"@);
    assert("mediterranean"@ != "baltic"@ && "mediterranean"@ != "norway"@ && "mediterranean"@
        != "arctic"@ && "mediterranean"@ != "atlantic"@ && "mediterranean"@ != "europe"@);
    let n = ascii_lower_seq(name);
    if !preset_names().contains(n) {
        assert(preset_names()[0] == "global"@);
        assert(preset_names()[1] == "baltic"@);
        assert(preset_names()[2] == "norway"@);
        assert(preset_names()[3] == "arctic"@);
        assert(preset_names()[4] == "atlantic"@);
        assert(preset_names()[5] == "europe"@);
        assert(preset_names()[6] == "mediterranean"@);
    }
}

} // verus!
