//! Where the files of a partition are written.
use std::sync::Arc;
use vstd::prelude::*;

use crate::store::catalog::Kind;
use crate::text::{decimal, decimal_text, lemma_decimal_injective};
use crate::utils::times::{date_text, day_text, Date};

verus! {

/// A path with one more component: an absolute component takes the place of the
/// path, and a separator stands between the two unless the path is empty or ends
/// in one.
pub open spec fn joined(base: Seq<char>, component: Seq<char>) -> Seq<char> {
    if component.len() > 0 && component[0] == '/' {
        component
    } else if base.len() == 0 || base.last() == '/' {
        base + component
    } else {
        base.push('/') + component
    }
}

/// The path of a file of a partition.
pub open spec fn output_path(
    data_dir: Seq<char>,
    kind: Kind,
    symbol: Seq<char>,
    file_name: Seq<char>,
    date: Date,
) -> Seq<char> {
    path_on(data_dir, kind, day_text(date.day), symbol, file_name)
}

/// The path of a file of a partition, where the day is written as given.
pub open spec fn path_on(
    data_dir: Seq<char>,
    kind: Kind,
    day: Seq<char>,
    symbol: Seq<char>,
    file_name: Seq<char>,
) -> Seq<char> {
    joined(joined(joined(joined(data_dir, kind.label()), day), symbol), file_name)
}

/// The name of the `n`th file that is flushed for a symbol.
pub open spec fn part_name(n: nat) -> Seq<char> {
    "part-"@ + decimal(n) + ".parquet"@
}

/// The name of the `n`th merged file.
pub open spec fn merged_name(n: nat) -> Seq<char> {
    "merged-"@ + decimal(n) + ".parquet"@
}

pub(crate) fn part_name_text(n: u32) -> (r: String)
    ensures
        r@ == part_name(n as nat),
{
    let mut r: String = "part-".to_owned();
    let digits: String = decimal_text(n as u64);
    r.append(digits.as_str());
    r.append(".parquet");
    r
}

pub(crate) fn merged_name_text(n: usize) -> (r: String)
    ensures
        r@ == merged_name(n as nat),
{
    let mut r: String = "merged-".to_owned();
    let digits: String = decimal_text(n as u64);
    r.append(digits.as_str());
    r.append(".parquet");
    r
}

/// Adds a component to a path.
fn join(base: &mut String, component: &str)
    ensures
        final(base)@ == joined(old(base)@, component@),
{
    let base_len: usize = base.as_str().unicode_len();
    if component.unicode_len() > 0 && component.get_char(0) == '/' {
        *base = component.to_owned();
    } else if base_len == 0 || base.as_str().get_char(base_len - 1) == '/' {
        base.append(component);
    } else {
        proof {
            reveal_strlit("/");
        }
        base.append("/");
        base.append(component);
        assert(base@ =~= old(base)@.push('/') + component@);
    }
}

/// Whether a text names something right below a directory: it is not empty,
/// holds no separator, and is neither the name of the directory itself nor that
/// of its parent.
pub open spec fn is_component(text: Seq<char>) -> bool {
    text.len() > 0 && !text.contains('/') && text != seq!['.'] && text != seq!['.', '.']
}

/// A directory with a separator behind it.
pub open spec fn below(dir: Seq<char>) -> Seq<char> {
    if dir.len() == 0 || dir.last() == '/' {
        dir
    } else {
        dir.push('/')
    }
}

pub(crate) proof fn lemma_joined_component(base: Seq<char>, component: Seq<char>)
    requires
        is_component(component),
    ensures
        joined(base, component) == below(base) + component,
        below(joined(base, component)) == (below(base) + component).push('/'),
{
    assert(component.contains(component[0]));
    assert(component.contains(component.last()));
    assert(joined(base, component) =~= below(base) + component);
    assert((below(base) + component).last() == component.last());
}

pub(crate) proof fn lemma_labels_are_components(kind: Kind)
    ensures
        is_component(kind.label()),
{
    reveal_strlit("Quote");
    reveal_strlit("Trade");
    assert(kind.label().len() == 5);
}

/// The path of a file of a partition, where the day is written as given. Where
/// the day, the symbol and the name of the file are components, each names
/// something below what stands before it, and all of them below the data
/// directory.
pub fn output_path_on(data_dir: &str, kind: Kind, day: &str, symbol: &str, file_name: &str) -> (path: String)
    ensures
        path@ == path_on(data_dir@, kind, day@, symbol@, file_name@),
        is_component(day@) && is_component(symbol@) && is_component(file_name@) ==> path@ == below(data_dir@)
            + kind.label() + seq!['/'] + day@ + seq!['/'] + symbol@ + seq!['/'] + file_name@,
{
    let mut path: String = data_dir.to_owned();
    join(&mut path, kind.get_label());
    join(&mut path, day);
    join(&mut path, symbol);
    join(&mut path, file_name);
    proof {
        let label = kind.label();
        let under_label = joined(data_dir@, label);
        let under_day = joined(under_label, day@);
        lemma_labels_are_components(kind);
        lemma_joined_component(data_dir@, label);
        if is_component(day@) && is_component(symbol@) && is_component(file_name@) {
            lemma_joined_component(under_label, day@);
            lemma_joined_component(under_day, symbol@);
            lemma_joined_component(joined(under_day, symbol@), file_name@);
            assert(path@ =~= below(data_dir@) + label + seq!['/'] + day@ + seq!['/'] + symbol@ + seq!['/']
                + file_name@);
        }
    }
    path
}

/// The path of a file of a partition: the data directory, the kind, the date,
/// the symbol and the name of the file. Where the symbol and the name of the
/// file are components, the file lies below the data directory.
pub fn get_output_path(data_dir: &str, kind: Kind, symbol: Arc<str>, file_name: &str, date: &Date) -> (path: String)
    requires
        date.wf(),
    ensures
        path@ == output_path(data_dir@, kind, symbol@, file_name@, *date),
        is_component(symbol@) && is_component(file_name@) ==> path@ == below(data_dir@) + kind.label() + seq!['/']
            + day_text(date.day) + seq!['/'] + symbol@ + seq!['/'] + file_name@,
{
    let day: String = date_text(date.day);
    output_path_on(data_dir, kind, day.as_str(), &*symbol, file_name)
}

/// A file in a directory, whatever the name of the directory: different names
/// make different paths.
proof fn lemma_joined_injective(base: Seq<char>, a: Seq<char>, b: Seq<char>)
    requires
        is_component(a),
        is_component(b),
        joined(base, a) == joined(base, b),
    ensures
        a == b,
{
    lemma_joined_component(base, a);
    lemma_joined_component(base, b);
    let dir = below(base);
    assert((dir + a).skip(dir.len() as int) =~= a);
    assert((dir + b).skip(dir.len() as int) =~= b);
}

proof fn lemma_decimal_has_no_separator(n: nat)
    ensures
        decimal(n).len() > 0,
        !decimal(n).contains('/'),
    decreases n,
{
    if n >= 10 {
        lemma_decimal_has_no_separator(n / 10);
    }
    assert forall|i: int| 0 <= i < decimal(n).len() implies decimal(n)[i] != '/' by {
        if n >= 10 && i < decimal(n).len() - 1 {
            assert(decimal(n)[i] == decimal(n / 10)[i]);
            assert(decimal(n / 10).contains(decimal(n / 10)[i]));
        }
    }
}

proof fn lemma_names_are_components(n: nat)
    ensures
        is_component(part_name(n)),
        is_component(merged_name(n)),
{
    reveal_strlit("part-");
    reveal_strlit("merged-");
    reveal_strlit(".parquet");
    lemma_decimal_has_no_separator(n);
    let digits = decimal(n);
    assert(part_name(n)[0] == 'p');
    assert(merged_name(n)[0] == 'm');
    assert forall|i: int| 0 <= i < part_name(n).len() implies part_name(n)[i] != '/' by {
        if 5 <= i < 5 + digits.len() {
            assert(part_name(n)[i] == digits[i - 5]);
            assert(digits.contains(digits[i - 5]));
        }
    }
    assert forall|i: int| 0 <= i < merged_name(n).len() implies merged_name(n)[i] != '/' by {
        if 7 <= i < 7 + digits.len() {
            assert(merged_name(n)[i] == digits[i - 7]);
            assert(digits.contains(digits[i - 7]));
        }
    }
}

proof fn lemma_framed_number(prefix: Seq<char>, suffix: Seq<char>, m: nat, n: nat)
    requires
        prefix + decimal(m) + suffix == prefix + decimal(n) + suffix,
    ensures
        m == n,
{
    let a = prefix + decimal(m) + suffix;
    let b = prefix + decimal(n) + suffix;
    assert(a.len() == prefix.len() + decimal(m).len() + suffix.len());
    assert(b.len() == prefix.len() + decimal(n).len() + suffix.len());
    assert(a.subrange(prefix.len() as int, (prefix.len() + decimal(m).len()) as int) =~= decimal(m));
    assert(b.subrange(prefix.len() as int, (prefix.len() + decimal(n).len()) as int) =~= decimal(n));
    assert(decimal(m) == decimal(n));
    lemma_decimal_injective(m, n);
}

/// No two flushes of a partition write to one path, no two merges do, and no
/// merge writes to the path of a flush.
pub proof fn files_of_a_partition_are_distinct(
    data_dir: Seq<char>,
    kind: Kind,
    symbol: Seq<char>,
    date: Date,
    m: nat,
    n: nat,
)
    ensures
        output_path(data_dir, kind, symbol, part_name(m), date) == output_path(
            data_dir,
            kind,
            symbol,
            part_name(n),
            date,
        ) ==> m == n,
        output_path(data_dir, kind, symbol, merged_name(m), date) == output_path(
            data_dir,
            kind,
            symbol,
            merged_name(n),
            date,
        ) ==> m == n,
        output_path(data_dir, kind, symbol, part_name(m), date) != output_path(
            data_dir,
            kind,
            symbol,
            merged_name(n),
            date,
        ),
{
    let dir = joined(joined(joined(data_dir, kind.label()), day_text(date.day)), symbol);
    lemma_names_are_components(m);
    lemma_names_are_components(n);
    if joined(dir, part_name(m)) == joined(dir, part_name(n)) {
        lemma_joined_injective(dir, part_name(m), part_name(n));
        lemma_framed_number("part-"@, ".parquet"@, m, n);
    }
    if joined(dir, merged_name(m)) == joined(dir, merged_name(n)) {
        lemma_joined_injective(dir, merged_name(m), merged_name(n));
        lemma_framed_number("merged-"@, ".parquet"@, m, n);
    }
    if joined(dir, part_name(m)) == joined(dir, merged_name(n)) {
        lemma_joined_injective(dir, part_name(m), merged_name(n));
        reveal_strlit("part-");
        reveal_strlit("merged-");
        assert(part_name(m)[0] == 'p');
        assert(merged_name(n)[0] == 'm');
    }
}

} // verus!
