//! What the enrichment modules decide for themselves: the columns each appends,
//! the name of the default output file, and the small per-module rules for
//! picking data files and attribute values.
use vstd::prelude::*;

use crate::cli::Format;
use crate::io::{ext_of, format_ext, format_of_name, resolve_format, resolved_format};
use crate::pipeline::{OutputKind, OutputSpec};
use crate::text::{ascii_lower, ascii_lower_seq, chars_of, ends_with, ends_with_chars, lower_ascii, to_text};
use vstd::string::StringExecFns;

pub mod coast;
pub mod depth;
pub mod nearest;
pub mod place;
pub mod regions;
pub mod sea;

verus! {

/// The columns a module appends, as (name, kind) pairs.
pub open spec fn spec_columns(specs: Seq<OutputSpec>) -> Seq<(Seq<char>, OutputKind)> {
    specs.map_values(|s: OutputSpec| (s.name@, s.kind))
}

/// One output column.
pub fn output(name: &str, kind: OutputKind) -> (r: OutputSpec)
    ensures
        r.name@ == name@,
        r.kind == kind,
{
    OutputSpec { name: String::from_str(name), kind }
}

/// The recognized format extensions, stripped whole from an input name when
/// building the default output name (".csv.gz" spans two path extensions).
pub const KNOWN_EXTENSIONS: [&'static str; 6] = [".parquet", ".pq", ".csv.gz", ".tsv.gz", ".csv", ".tsv"];

/// The recognized format extensions as character sequences.
pub open spec fn known_extensions() -> Seq<Seq<char>> {
    seq![".parquet"@, ".pq"@, ".csv.gz"@, ".tsv.gz"@, ".csv"@, ".tsv"@]
}

/// The first recognized extension, from position `k` on, that the lower-cased
/// name ends with.
pub open spec fn known_extension_from(lower: Seq<char>, k: int) -> Option<int>
    decreases 6 - k,
{
    if k < 0 || k >= 6 {
        None
    } else if ends_with(lower, known_extensions()[k]) {
        Some(k)
    } else {
        known_extension_from(lower, k + 1)
    }
}

/// The text of an optional string.
pub open spec fn opt_view(o: Option<&str>) -> Option<Seq<char>> {
    match o {
        Some(s) => Some(s@),
        None => None,
    }
}

/// The stem of the default output name: the file name with a recognized
/// extension stripped whole (ASCII case-insensitively); failing that the
/// path's own file stem; failing that "output".
pub open spec fn output_stem(file_name: Option<Seq<char>>, file_stem: Option<Seq<char>>) -> Seq<char> {
    let stripped = match file_name {
        Some(n) => match known_extension_from(ascii_lower_seq(n), 0) {
            Some(k) => Some(n.take(n.len() - known_extensions()[k].len())),
            None => None,
        },
        None => None,
    };
    match stripped {
        Some(s) => s,
        None => match file_stem {
            Some(s) => s,
            None => "output"@,
        },
    }
}

/// The file name as the format lookup sees it: empty when there is none.
pub open spec fn name_or_empty(file_name: Option<Seq<char>>) -> Seq<char> {
    match file_name {
        Some(n) => n,
        None => Seq::empty(),
    }
}

/// The default output file name: `<stem>.<tag>.<ext>`, where `<ext>` is the
/// canonical extension of the input's format.
pub open spec fn default_output_spec(
    file_name: Option<Seq<char>>,
    file_stem: Option<Seq<char>>,
    tag: Seq<char>,
    in_fmt: Format,
) -> Seq<char> {
    output_stem(file_name, file_stem) + "."@ + tag + "."@ + ext_of(
        resolved_format(name_or_empty(file_name), in_fmt),
    )
}

/// The name with its recognized format extension removed, when it has one.
fn strip_known_extension(name: &[char]) -> (r: Option<Vec<char>>)
    ensures
        match known_extension_from(ascii_lower_seq(name@), 0) {
            Some(k) => r matches Some(s) && s@ == name@.take(name@.len() - known_extensions()[k].len()),
            None => r is None,
        },
{
    let lower = lower_ascii(name);
    let exts = KNOWN_EXTENSIONS;
    assert(exts@.map_values(|s: &str| s@) =~= known_extensions());
    let mut k: usize = 0;
    while k < 6
        invariant
            k <= 6,
            exts == KNOWN_EXTENSIONS,
            exts@.map_values(|s: &str| s@) == known_extensions(),
            lower@ == ascii_lower_seq(name@),
            lower@.len() == name@.len(),
            known_extension_from(lower@, 0) == known_extension_from(lower@, k as int),
        decreases 6 - k,
    {
        let e = chars_of(exts[k]);
        assert(e@ == known_extensions()[k as int]);
        if ends_with_chars(lower.as_slice(), e.as_slice()) {
            let keep = name.len() - e.len();
            let mut s: Vec<char> = Vec::new();
            let mut j: usize = 0;
            while j < keep
                invariant
                    j <= keep <= name.len(),
                    s@ == name@.take(j as int),
                decreases keep - j,
            {
                s.push(name[j]);
                j = j + 1;
                assert(s@ =~= name@.take(j as int));
            }
            return Some(s);
        }
        k = k + 1;
    }
    None
}

/// The file name of the default output when `--output` is omitted: the input
/// renamed to `<stem>.<tag>.<ext>`, where `<ext>` matches the input format, so
/// the output format defaults to the input format. `file_name` and `file_stem`
/// are the input path's last component and its stem, when they are valid text.
/// The output goes beside the input.
pub fn default_output(
    file_name: Option<&str>,
    file_stem: Option<&str>,
    tag: &str,
    in_fmt: Format,
) -> (r: String)
    ensures
        r@ == default_output_spec(opt_view(file_name), opt_view(file_stem), tag@, in_fmt),
{
    let for_format = match file_name {
        Some(n) => n,
        None => "",
    };
    proof {
        reveal_strlit("");
    }
    assert(for_format@ == name_or_empty(opt_view(file_name)));
    let fmt = resolve_format(for_format, in_fmt);
    let ext = format_ext(fmt);
    let stem: Option<Vec<char>> = match file_name {
        Some(n) => strip_known_extension(chars_of(n).as_slice()),
        None => None,
    };
    let stem_text = match stem {
        Some(s) => to_text(s.as_slice()),
        None => match file_stem {
            Some(s) => String::from_str(s),
            None => String::from_str("output"),
        },
    };
    assert(stem_text@ == output_stem(opt_view(file_name), opt_view(file_stem)));
    let mut out = stem_text;
    out.append(".");
    out.append(tag);
    out.append(".");
    out.append(ext);
    out
}

// ---------------------------------------------------------------------------
// Laws
// ---------------------------------------------------------------------------

proof fn lemma_lower_of_concat(a: Seq<char>, b: Seq<char>)
    ensures
        ascii_lower_seq(a + b) == ascii_lower_seq(a) + ascii_lower_seq(b),
{
    assert(ascii_lower_seq(a + b) =~= ascii_lower_seq(a) + ascii_lower_seq(b));
}

proof fn lemma_ends_with_char(n: Seq<char>, y: Seq<char>, k: int)
    requires
        ends_with(n, y),
        1 <= k <= y.len(),
    ensures
        n[n.len() - k] == y[y.len() - k],
{
    assert(n.subrange(n.len() - y.len(), n.len() as int)[y.len() - k] == y[y.len() - k]);
}

proof fn lemma_suffix_selects_format(p: Seq<char>, f: Format)
    requires
        f != Format::Auto,
    ensures
        format_of_name(p + "."@ + ext_of(f)) == f,
{
    reveal_strlit(".");
    reveal_strlit("parquet");
    reveal_strlit("csv");
    reveal_strlit("tsv");
    reveal_strlit("csv.gz");
    reveal_strlit("tsv.gz");
    reveal_strlit(".parquet");
    reveal_strlit(".pq");
    reveal_strlit(".csv");
    reveal_strlit(".tsv");
    reveal_strlit(".csv.gz");
    reveal_strlit(".tsv.gz");
    let b = "."@ + ext_of(f);
    assert(p + "."@ + ext_of(f) == p + b);
    let lb = ascii_lower_seq(b);
    assert(lb =~= b);
    lemma_lower_of_concat(p, b);
    let n = ascii_lower_seq(p + b);
    assert(n == ascii_lower_seq(p) + b);
    assert(ends_with(n, b)) by {
        assert(n.subrange(n.len() - b.len(), n.len() as int) =~= b);
    }
    let last = n[n.len() - 1];
    assert(last == b[b.len() - 1]);
    match f {
        Format::Parquet => {
            assert(b =~= ".parquet"@);
        },
        Format::TsvGz => {
            assert(b =~= ".tsv.gz"@);
            if ends_with(n, ".parquet"@) {
                lemma_ends_with_char(n, ".parquet"@, 1);
            }
            if ends_with(n, ".pq"@) {
                lemma_ends_with_char(n, ".pq"@, 1);
            }
        },
        Format::CsvGz => {
            assert(b =~= ".csv.gz"@);
            if ends_with(n, ".parquet"@) {
                lemma_ends_with_char(n, ".parquet"@, 1);
            }
            if ends_with(n, ".pq"@) {
                lemma_ends_with_char(n, ".pq"@, 1);
            }
            if ends_with(n, ".tsv.gz"@) {
                lemma_ends_with_char(n, ".tsv.gz"@, 6);
                assert(n[n.len() - 6] == b[b.len() - 6]);
            }
        },
        Format::Tsv => {
            assert(b =~= ".tsv"@);
            if ends_with(n, ".parquet"@) {
                lemma_ends_with_char(n, ".parquet"@, 1);
            }
            if ends_with(n, ".pq"@) {
                lemma_ends_with_char(n, ".pq"@, 1);
            }
            if ends_with(n, ".tsv.gz"@) {
                lemma_ends_with_char(n, ".tsv.gz"@, 1);
            }
            if ends_with(n, ".csv.gz"@) {
                lemma_ends_with_char(n, ".csv.gz"@, 1);
            }
        },
        Format::Csv => {
            assert(b =~= ".csv"@);
            if ends_with(n, ".parquet"@) {
                lemma_ends_with_char(n, ".parquet"@, 1);
            }
            if ends_with(n, ".pq"@) {
                lemma_ends_with_char(n, ".pq"@, 1);
            }
            if ends_with(n, ".tsv.gz"@) {
                lemma_ends_with_char(n, ".tsv.gz"@, 1);
            }
            if ends_with(n, ".csv.gz"@) {
                lemma_ends_with_char(n, ".csv.gz"@, 1);
            }
            if ends_with(n, ".tsv"@) {
                lemma_ends_with_char(n, ".tsv"@, 3);
                assert(n[n.len() - 3] == b[b.len() - 3]);
            }
        },
        Format::Auto => {},
    }
}

/// The default output keeps the input's format: read back by extension, the
/// default output name selects the same format the input was read in.
pub proof fn lemma_default_output_keeps_format(
    file_name: Option<Seq<char>>,
    file_stem: Option<Seq<char>>,
    tag: Seq<char>,
    in_fmt: Format,
)
    ensures
        format_of_name(default_output_spec(file_name, file_stem, tag, in_fmt)) == resolved_format(
            name_or_empty(file_name),
            in_fmt,
        ),
{
    let f = resolved_format(name_or_empty(file_name), in_fmt);
    let p = output_stem(file_name, file_stem) + "."@ + tag;
    assert(default_output_spec(file_name, file_stem, tag, in_fmt) == p + "."@ + ext_of(f));
    lemma_suffix_selects_format(p, f);
}


proof fn reveal_extensions()
    ensures
        known_extensions()[0] == seq!['.', 'p', 'a', 'r', 'q', 'u', 'e', 't'],
        known_extensions()[1] == seq!['.', 'p', 'q'],
        known_extensions()[2] == seq!['.', 'c', 's', 'v', '.', 'g', 'z'],
        known_extensions()[3] == seq!['.', 't', 's', 'v', '.', 'g', 'z'],
        known_extensions()[4] == seq!['.', 'c', 's', 'v'],
        known_extensions()[5] == seq!['.', 't', 's', 'v'],
{
    reveal_strlit(".parquet");
    reveal_strlit(".pq");
    reveal_strlit(".csv.gz");
    reveal_strlit(".tsv.gz");
    reveal_strlit(".csv");
    reveal_strlit(".tsv");
    assert(".parquet"@ =~= seq!['.', 'p', 'a', 'r', 'q', 'u', 'e', 't']);
    assert(".pq"@ =~= seq!['.', 'p', 'q']);
    assert(".csv.gz"@ =~= seq!['.', 'c', 's', 'v', '.', 'g', 'z']);
    assert(".tsv.gz"@ =~= seq!['.', 't', 's', 'v', '.', 'g', 'z']);
    assert(".csv"@ =~= seq!['.', 'c', 's', 'v']);
    assert(".tsv"@ =~= seq!['.', 't', 's', 'v']);
}

/// A name made of any stem and a recognized extension, lower-cased, ends with
/// that extension and with no other recognized one.
proof fn lemma_extension_suffixes(s: Seq<char>, i: int, j: int)
    requires
        0 <= i < 6,
        0 <= j < 6,
    ensures
        ascii_lower_seq(s + known_extensions()[i]) == ascii_lower_seq(s) + known_extensions()[i],
        ends_with(ascii_lower_seq(s + known_extensions()[i]), known_extensions()[j]) <==> i == j,
{
    reveal_extensions();
    let e = known_extensions()[i];
    let f = known_extensions()[j];
    lemma_lower_of_concat(s, e);
    assert(ascii_lower_seq(e) =~= e);
    let n = ascii_lower_seq(s) + e;
    assert(n.subrange(n.len() - e.len(), n.len() as int) =~= e);
    assert(ends_with(n, e));
    if i != j && ends_with(n, f) {
        let k: int = if e.last() != f.last() {
            1
        } else if e.len() == 7 {
            6
        } else {
            3
        };
        lemma_ends_with_char(n, f, k);
        lemma_ends_with_char(n, e, k);
        assert(false);
    }
}

/// A recognized extension is stripped whole, in whatever ASCII case it is
/// written, and the output keeps the format it names: for every stem `s`,
/// `s.csv.gz` gives `s.<tag>.csv.gz`, `s.pq` gives `s.<tag>.parquet`, and so on
/// for each recognized extension.
pub proof fn lemma_known_extension_is_stripped_whole(
    s: Seq<char>,
    file_stem: Option<Seq<char>>,
    tag: Seq<char>,
)
    ensures
        default_output_spec(Some(s + ".parquet"@), file_stem, tag, Format::Auto) == s + "."@ + tag
            + ".parquet"@,
        default_output_spec(Some(s + ".pq"@), file_stem, tag, Format::Auto) == s + "."@ + tag
            + ".parquet"@,
        default_output_spec(Some(s + ".csv.gz"@), file_stem, tag, Format::Auto) == s + "."@ + tag
            + ".csv.gz"@,
        default_output_spec(Some(s + ".tsv.gz"@), file_stem, tag, Format::Auto) == s + "."@ + tag
            + ".tsv.gz"@,
        default_output_spec(Some(s + ".csv"@), file_stem, tag, Format::Auto) == s + "."@ + tag
            + ".csv"@,
        default_output_spec(Some(s + ".tsv"@), file_stem, tag, Format::Auto) == s + "."@ + tag
            + ".tsv"@,
{
    reveal_extensions();
    reveal_strlit(".");
    reveal_strlit("parquet");
    reveal_strlit("csv");
    reveal_strlit("tsv");
    reveal_strlit("csv.gz");
    reveal_strlit("tsv.gz");
    reveal_with_fuel(known_extension_from, 7);
    assert forall|i: int| 0 <= i < 6 implies {
        let name = s + #[trigger] known_extensions()[i];
        &&& output_stem(Some(name), file_stem) == s
        &&& format_of_name(name) == (if i <= 1 {
            Format::Parquet
        } else if i == 2 {
            Format::CsvGz
        } else if i == 3 {
            Format::TsvGz
        } else if i == 4 {
            Format::Csv
        } else {
            Format::Tsv
        })
    } by {
        let name = s + known_extensions()[i];
        let n = ascii_lower_seq(name);
        lemma_extension_suffixes(s, i, 0);
        lemma_extension_suffixes(s, i, 1);
        lemma_extension_suffixes(s, i, 2);
        lemma_extension_suffixes(s, i, 3);
        lemma_extension_suffixes(s, i, 4);
        lemma_extension_suffixes(s, i, 5);
        assert(known_extension_from(n, 0) == Some(i));
        assert(name.take(name.len() - known_extensions()[i].len()) =~= s);
    }
    assert(known_extensions()[0] == ".parquet"@);
    assert(known_extensions()[1] == ".pq"@);
    assert(known_extensions()[2] == ".csv.gz"@);
    assert(known_extensions()[3] == ".tsv.gz"@);
    assert(known_extensions()[4] == ".csv"@);
    assert(known_extensions()[5] == ".tsv"@);
    assert(s + "."@ + tag + "."@ + "parquet"@ =~= s + "."@ + tag + ".parquet"@);
    assert(s + "."@ + tag + "."@ + "csv.gz"@ =~= s + "."@ + tag + ".csv.gz"@);
    assert(s + "."@ + tag + "."@ + "tsv.gz"@ =~= s + "."@ + tag + ".tsv.gz"@);
    assert(s + "."@ + tag + "."@ + "csv"@ =~= s + "."@ + tag + ".csv"@);
    assert(s + "."@ + tag + "."@ + "tsv"@ =~= s + "."@ + tag + ".tsv"@);
}

} // verus!
