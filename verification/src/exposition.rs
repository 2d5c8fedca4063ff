//! The Prometheus exposition text.

use crate::text;
use vstd::prelude::*;
use vstd::string::*;

verus! {

/// One bucket of a histogram: an inclusive range of values and the number of
/// observations in it.
#[derive(Clone, Copy, Debug, PartialEq, Eq)]
pub struct Bucket {
    /// The smallest value of the range.
    pub start: u64,
    /// The largest value of the range.
    pub end: u64,
    /// The number of observations.
    pub count: u64,
}

/// The bucket end that a quantile of the observations falls into.
#[derive(Debug)]
pub struct QuantileRow {
    /// The quantile, as a decimal fraction.
    pub label: String,
    /// The largest value of the bucket.
    pub end: u64,
}

/// What is reported of a histogram.
#[derive(Debug)]
pub struct Distribution {
    /// The buckets, in ascending order of their ranges.
    pub buckets: Vec<Bucket>,
    /// The quantiles, in ascending order.
    pub quantiles: Vec<QuantileRow>,
}

/// The value of a metric that is exposed.
#[derive(Debug)]
pub enum Sample {
    /// The value of a counter.
    Counter(u64),
    /// The value of a gauge.
    Gauge(i64),
    /// The observations of a histogram.
    Summary(Distribution),
}

/// A metric that is exposed, or that has no value to expose.
#[derive(Debug)]
pub struct Family {
    /// The name of the metric.
    pub name: String,
    /// What the metric measures.
    pub description: Option<String>,
    /// The value, if there is one to expose.
    pub sample: Option<Sample>,
}

/// A text that may be missing.
pub open spec fn optional_text(text: Option<&str>) -> Option<Seq<char>> {
    match text {
        Some(s) => Some(s@),
        None => None,
    }
}

/// The escape of a character of a help text.
pub open spec fn escape_char(c: char) -> Seq<char> {
    if c == '\\' {
        seq!['\\', '\\']
    } else if c == '\n' {
        seq!['\\', 'n']
    } else {
        seq![c]
    }
}

/// A help text with its backslashes and newlines escaped.
pub open spec fn escape(s: Seq<char>) -> Seq<char>
    decreases s.len(),
{
    if s.len() == 0 {
        Seq::empty()
    } else {
        escape(s.drop_last()) + escape_char(s.last())
    }
}

/// The text that an escaped help text stands for.
pub open spec fn unescape(s: Seq<char>) -> Seq<char>
    decreases s.len(),
{
    if s.len() == 0 {
        Seq::empty()
    } else if s[0] == '\\' && s.len() > 1 {
        seq![if s[1] == 'n' { '\n' } else { s[1] }] + unescape(s.skip(2))
    } else {
        seq![s[0]] + unescape(s.drop_first())
    }
}

/// The help line of a metric; a metric without a description, or with an empty
/// one, has none.
pub open spec fn help(name: Seq<char>, description: Option<Seq<char>>) -> Seq<char> {
    match description {
        Some(text) if text.len() > 0 => "# HELP "@ + name + " "@ + escape(text) + "\n"@,
        _ => Seq::empty(),
    }
}

/// The type line of a metric.
pub open spec fn type_line(name: Seq<char>, kind: Seq<char>) -> Seq<char> {
    "# TYPE "@ + name + " "@ + kind + "\n"@
}

/// The sample line of a metric, or of a part of it.
pub open spec fn sample_line(name: Seq<char>, value: Seq<char>) -> Seq<char> {
    name + " "@ + value + "\n"@
}

/// The sample lines of the quantiles of a metric.
pub open spec fn quantile_lines(name: Seq<char>, rows: Seq<QuantileRow>) -> Seq<char>
    decreases rows.len(),
{
    if rows.len() == 0 {
        Seq::empty()
    } else {
        quantile_lines(name, rows.drop_last()) + sample_line(
            name + "{quantile=\""@ + rows.last().label@ + "\"}"@,
            text::decimal(rows.last().end as nat),
        )
    }
}

/// The number of observations in some buckets.
pub open spec fn total_count(buckets: Seq<Bucket>) -> nat
    decreases buckets.len(),
{
    if buckets.len() == 0 {
        0
    } else {
        total_count(buckets.drop_last()) + buckets.last().count as nat
    }
}

/// The middle of a bucket, which stands for the values that fell into it.
pub open spec fn midpoint(bucket: Bucket) -> nat {
    ((bucket.start + bucket.end) / 2) as nat
}

/// The sum of the observations in some buckets, each taken at the middle of its
/// bucket.
pub open spec fn total_sum(buckets: Seq<Bucket>) -> nat
    decreases buckets.len(),
{
    if buckets.len() == 0 {
        0
    } else {
        total_sum(buckets.drop_last()) + buckets.last().count as nat * midpoint(buckets.last())
    }
}

/// The lines of a histogram. The counters are machine words: the count is
/// given modulo 2^64 and the sum modulo 2^128.
pub open spec fn summary(
    name: Seq<char>,
    description: Option<Seq<char>>,
    snapshot: Distribution,
) -> Seq<char> {
    help(name, description) + type_line(name, "summary"@) + quantile_lines(
        name,
        snapshot.quantiles@,
    ) + sample_line(
        name + "_count"@,
        text::decimal(total_count(snapshot.buckets@) % (u64::MAX as nat + 1)),
    ) + sample_line(
        name + "_sum"@,
        text::decimal(
            total_sum(snapshot.buckets@) % (u128::MAX as nat + 1),
        ),
    )
}

/// The description of a metric.
pub open spec fn description_of(family: Family) -> Option<Seq<char>> {
    match family.description {
        Some(text) => Some(text@),
        None => None,
    }
}

/// The lines of a metric; without a value it has none.
pub open spec fn family_text(family: Family) -> Seq<char> {
    let name = family.name@;
    let description = description_of(family);
    match family.sample {
        None => Seq::empty(),
        Some(Sample::Counter(value)) => help(name, description) + type_line(name, "counter"@)
            + sample_line(name, text::decimal(value as nat)),
        Some(Sample::Gauge(value)) => help(name, description) + type_line(name, "gauge"@)
            + sample_line(name, text::signed_decimal(value as int)),
        Some(Sample::Summary(snapshot)) => summary(name, description, snapshot),
    }
}

/// The lines of some metrics, in their order.
pub open spec fn exposition_text(families: Seq<Family>) -> Seq<char>
    decreases families.len(),
{
    if families.len() == 0 {
        Seq::empty()
    } else {
        exposition_text(families.drop_last()) + family_text(families.last())
    }
}

/// Emit a `# HELP` line if `description` is non-empty. The text is escaped
/// per the Prometheus exposition format: backslashes and newlines only.
pub fn write_help(out: &mut String, name: &str, description: Option<&str>)
    ensures
        final(out)@ == old(out)@ + help(name@, optional_text(description)),
{
    let ghost before = out@;
    match description {
        None => {
            proof {
                assert(before + Seq::<char>::empty() =~= before);
            }
        },
        Some(text) => {
            if text.is_empty() {
                proof {
                    assert(before + Seq::<char>::empty() =~= before);
                }
                return ;
            }
            out.append("# HELP ");
            out.append(name);
            out.append(" ");
            let ghost front = out@;
            proof {
                assert(text@.take(0) =~= Seq::empty());
                assert(front + escape(text@.take(0)) =~= front);
            }
            for c in it: text.chars()
                invariant
                    it.seq() == text@,
                    out@ == front + escape(text@.take(it.index() as int)),
            {
                proof {
                    let done = text@.take(it.index() as int + 1);
                    assert(done.drop_last() =~= text@.take(it.index() as int));
                    assert(done.last() == c);
                }
                if c == '\\' {
                    out.append("\\\\");
                    proof {
                        reveal_strlit("\\\\");
                    }
                } else if c == '\n' {
                    out.append("\\n");
                    proof {
                        reveal_strlit("\\n");
                    }
                } else {
                    out.push(c);
                }
                assert(out@ =~= front + escape(text@.take(it.index() as int + 1)));
            }
            proof {
                assert(text@.take(text@.len() as int) =~= text@);
            }
            out.append("\n");
            proof {
                assert(out@ =~= before + help(name@, Some(text@)));
            }
        },
    }
}

/// Adding to a remainder, and wrapping around at the modulus, gives the
/// remainder of the sum.
proof fn lemma_wrapping_sum(total: nat, step: nat, modulus: nat)
    requires
        step < modulus,
    ensures
        total % modulus + step < modulus ==> (total + step) % modulus == total % modulus + step,
        total % modulus + step >= modulus ==> (total + step) % modulus == total % modulus + step
            - modulus,
{
    let (n, d, m) = (total as int, step as int, modulus as int);
    vstd::arithmetic::div_mod::lemma_add_mod_noop(n, d, m);
    vstd::arithmetic::div_mod::lemma_small_mod(step, modulus);
    let near = n % m + d;
    if near < m {
        vstd::arithmetic::div_mod::lemma_small_mod(near as nat, modulus);
    } else {
        vstd::arithmetic::div_mod::lemma_small_mod((near - m) as nat, modulus);
        vstd::arithmetic::div_mod::lemma_mod_sub_multiples_vanish(near, m);
    }
}

/// The number of observations in some buckets, and their sum with each value
/// taken at the middle of its bucket. The counters wrap around.
fn count_and_sum(buckets: &Vec<Bucket>) -> (totals: (u64, u128))
    ensures
        totals.0 == total_count(buckets@) % (u64::MAX as nat + 1),
        totals.1 == total_sum(buckets@) % (u128::MAX as nat + 1),
{
    let mut count: u64 = 0;
    let mut sum: u128 = 0;
    let mut i: usize = 0;
    proof {
        assert(buckets@.take(0) =~= Seq::empty());
        vstd::arithmetic::div_mod::lemma_small_mod(0, u64::MAX as nat + 1);
        vstd::arithmetic::div_mod::lemma_small_mod(0, u128::MAX as nat + 1);
    }
    while i < buckets.len()
        invariant
            i <= buckets.len(),
            count == total_count(buckets@.take(i as int)) % (u64::MAX as nat + 1),
            sum == total_sum(buckets@.take(i as int)) % (u128::MAX as nat + 1),
        decreases buckets.len() - i,
    {
        let bucket = buckets[i];
        // Midpoint of the bucket: the exact values are not retained.
        let middle: u128 = (bucket.start as u128 + bucket.end as u128) / 2;
        proof {
            let count = bucket.count;
            assert(count * middle <= u128::MAX) by (nonlinear_arith)
                requires
                    count <= u64::MAX,
                    middle <= u64::MAX,
            ;
            let done = buckets@.take(i as int + 1);
            assert(done.drop_last() =~= buckets@.take(i as int));
            assert(done.last() == bucket);
            lemma_wrapping_sum(
                total_count(buckets@.take(i as int)),
                bucket.count as nat,
                u64::MAX as nat + 1,
            );
            lemma_wrapping_sum(
                total_sum(buckets@.take(i as int)),
                (bucket.count * middle) as nat,
                u128::MAX as nat + 1,
            );
        }
        count = count.wrapping_add(bucket.count);
        sum = sum.wrapping_add(bucket.count as u128 * middle);
        i += 1;
    }
    proof {
        assert(buckets@.take(buckets.len() as int) =~= buckets@);
    }
    (count, sum)
}

/// Render one histogram as a Prometheus "summary" -- `quantile="..."` rows plus
/// `_count`/`_sum` -- rather than a "histogram" (which would require cumulative
/// `_bucket{le=}` rows).
pub fn write_histogram_summary(
    out: &mut String,
    name: &str,
    description: Option<&str>,
    snapshot: &Distribution,
)
    ensures
        final(out)@ == old(out)@ + summary(name@, optional_text(description), *snapshot),
{
    let ghost before = out@;
    write_help(out, name, description);
    write_type(out, name, "summary");
    let ghost front = before + help(name@, optional_text(description)) + type_line(
        name@,
        "summary"@,
    );
    proof {
        assert(out@ =~= front);
        assert(snapshot.quantiles@.take(0) =~= Seq::empty());
        assert(out@ =~= front + quantile_lines(name@, snapshot.quantiles@.take(0)));
    }
    let mut i: usize = 0;
    while i < snapshot.quantiles.len()
        invariant
            i <= snapshot.quantiles.len(),
            out@ == front + quantile_lines(name@, snapshot.quantiles@.take(i as int)),
        decreases snapshot.quantiles.len() - i,
    {
        let row = &snapshot.quantiles[i];
        out.append(name);
        out.append("{quantile=\"");
        out.append(row.label.as_str());
        out.append("\"}");
        out.append(" ");
        text::push_decimal(out, row.end as u128);
        out.append("\n");
        proof {
            let done = snapshot.quantiles@.take(i as int + 1);
            assert(done.drop_last() =~= snapshot.quantiles@.take(i as int));
            assert(done.last() == row);
            assert(out@ =~= front + quantile_lines(name@, done));
        }
        i += 1;
    }
    proof {
        assert(snapshot.quantiles@.take(i as int) =~= snapshot.quantiles@);
    }
    let (count, sum) = count_and_sum(&snapshot.buckets);
    out.append(name);
    out.append("_count");
    out.append(" ");
    text::push_decimal(out, count as u128);
    out.append("\n");
    out.append(name);
    out.append("_sum");
    out.append(" ");
    text::push_decimal(out, sum);
    out.append("\n");
    proof {
        assert(out@ =~= before + summary(name@, optional_text(description), *snapshot));
    }
}

/// Appends the type line of a metric.
fn write_type(out: &mut String, name: &str, kind: &str)
    ensures
        final(out)@ == old(out)@ + type_line(name@, kind@),
{
    let ghost before = out@;
    out.append("# TYPE ");
    out.append(name);
    out.append(" ");
    out.append(kind);
    out.append("\n");
    proof {
        assert(out@ =~= before + type_line(name@, kind@));
    }
}

/// Appends the lines of a metric.
fn write_family(out: &mut String, family: &Family)
    ensures
        final(out)@ == old(out)@ + family_text(*family),
{
    let ghost before = out@;
    let name = family.name.as_str();
    let description = match &family.description {
        Some(text) => Some(text.as_str()),
        None => None,
    };
    match &family.sample {
        None => {
            proof {
                assert(before + Seq::<char>::empty() =~= before);
            }
        },
        Some(Sample::Counter(value)) => {
            write_help(out, name, description);
            write_type(out, name, "counter");
            out.append(name);
            out.append(" ");
            text::push_decimal(out, *value as u128);
            out.append("\n");
            proof {
                assert(out@ =~= before + family_text(*family));
            }
        },
        Some(Sample::Gauge(value)) => {
            write_help(out, name, description);
            write_type(out, name, "gauge");
            out.append(name);
            out.append(" ");
            text::push_signed_decimal(out, *value);
            out.append("\n");
            proof {
                assert(out@ =~= before + family_text(*family));
            }
        },
        Some(Sample::Summary(snapshot)) => write_histogram_summary(
            out,
            name,
            description,
            snapshot,
        ),
    }
}

/// The exposition text of some metrics.
pub fn render(families: &Vec<Family>) -> (text: String)
    ensures
        text@ == exposition_text(families@),
{
    let mut out = String::new();
    let mut i: usize = 0;
    proof {
        assert(families@.take(0) =~= Seq::empty());
    }
    while i < families.len()
        invariant
            i <= families.len(),
            out@ == exposition_text(families@.take(i as int)),
        decreases families.len() - i,
    {
        write_family(&mut out, &families[i]);
        proof {
            let done = families@.take(i as int + 1);
            assert(done.drop_last() =~= families@.take(i as int));
            assert(done.last() == families@[i as int]);
        }
        i += 1;
    }
    proof {
        assert(families@.take(i as int) =~= families@);
    }
    out
}

proof fn lemma_escape_front(s: Seq<char>)
    requires
        s.len() > 0,
    ensures
        escape(s) == escape_char(s[0]) + escape(s.drop_first()),
    decreases s.len(),
{
    if s.len() == 1 {
        assert(s.drop_last() =~= Seq::empty());
        assert(s.drop_first() =~= Seq::empty());
        assert(escape(s) =~= escape_char(s[0]) + escape(s.drop_first()));
    } else {
        lemma_escape_front(s.drop_last());
        assert(s.drop_last().drop_first() =~= s.drop_first().drop_last());
        assert(escape(s) =~= escape_char(s[0]) + escape(s.drop_first()));
    }
}

/// Escaping loses nothing: the description can be read back from a help line.
pub proof fn escape_can_be_undone(s: Seq<char>)
    ensures
        unescape(escape(s)) == s,
    decreases s.len(),
{
    if s.len() > 0 {
        let rest = s.drop_first();
        lemma_escape_front(s);
        escape_can_be_undone(rest);
        let escaped = escape(s);
        if s[0] == '\\' || s[0] == '\n' {
            assert(escaped.skip(2) =~= escape(rest));
        } else {
            assert(escaped.drop_first() =~= escape(rest));
        }
        assert(unescape(escaped) =~= seq![s[0]] + rest);
        assert(seq![s[0]] + rest =~= s);
    }
}

/// An escaped text holds no newline.
pub proof fn escape_keeps_to_one_line(s: Seq<char>)
    ensures
        !escape(s).contains('\n'),
    decreases s.len(),
{
    if s.len() > 0 {
        escape_keeps_to_one_line(s.drop_last());
        let front = escape(s.drop_last());
        let back = escape_char(s.last());
        assert forall|i: int| 0 <= i < escape(s).len() implies escape(s)[i] != '\n' by {
            if i < front.len() {
                assert(front.contains(front[i]));
            } else {
                assert(escape(s)[i] == back[i - front.len()]);
            }
        }
    }
}

/// Whatever the description of a metric holds, its help is a single line.
pub proof fn help_is_a_single_line(name: Seq<char>, description: Seq<char>)
    requires
        !name.contains('\n'),
        description.len() > 0,
    ensures
        help(name, Some(description)).last() == '\n',
        !help(name, Some(description)).drop_last().contains('\n'),
{
    reveal_strlit("# HELP ");
    reveal_strlit(" ");
    reveal_strlit("\n");
    escape_keeps_to_one_line(description);
    let line = help(name, Some(description));
    let body = line.drop_last();
    let escaped = escape(description);
    assert forall|i: int| 0 <= i < body.len() implies body[i] != '\n' by {
        if 7 <= i < 7 + name.len() {
            assert(body[i] == name[i - 7] && name.contains(name[i - 7]));
        } else if 8 + name.len() <= i {
            let k = i - 8 - name.len();
            assert(body[i] == escaped[k] && escaped.contains(escaped[k]));
        }
    }
}

/// The lines of one list of metrics and then of another are the lines of the
/// joined list.
pub proof fn exposition_of_a_joined_list(a: Seq<Family>, b: Seq<Family>)
    ensures
        exposition_text(a + b) == exposition_text(a) + exposition_text(b),
    decreases b.len(),
{
    if b.len() == 0 {
        assert(a + b =~= a);
        assert(exposition_text(a) + exposition_text(b) =~= exposition_text(a));
    } else {
        exposition_of_a_joined_list(a, b.drop_last());
        assert((a + b).drop_last() =~= a + b.drop_last());
        assert(exposition_text(a + b) =~= exposition_text(a) + exposition_text(b));
    }
}

/// No metric is left out, and its lines stand together, behind those of the
/// metrics before it.
pub proof fn every_family_is_exposed(families: Seq<Family>, i: int)
    requires
        0 <= i < families.len(),
    ensures
        exposition_text(families) == exposition_text(families.take(i)) + family_text(families[i])
            + exposition_text(families.skip(i + 1)),
{
    let front = families.take(i + 1);
    assert(families =~= front + families.skip(i + 1));
    exposition_of_a_joined_list(front, families.skip(i + 1));
    assert(front.drop_last() =~= families.take(i));
}

/// The text is made of whole lines: it is empty or ends in a newline.
pub proof fn exposition_ends_its_last_line(families: Seq<Family>)
    ensures
        exposition_text(families).len() == 0 || exposition_text(families).last() == '\n',
    decreases families.len(),
{
    if families.len() > 0 {
        reveal_strlit("\n");
        exposition_ends_its_last_line(families.drop_last());
        let lines = family_text(families.last());
        if lines.len() == 0 {
            assert(exposition_text(families) =~= exposition_text(families.drop_last()));
        } else {
            assert(exposition_text(families).last() == lines.last());
        }
    }
}

/// Escaping goes character by character: a text is escaped part by part, a
/// backslash and a newline become two characters, and every other character stays
/// as it is.
pub proof fn escape_goes_by_character(a: Seq<char>, b: Seq<char>, c: char)
    ensures
        escape(a + b) == escape(a) + escape(b),
        escape(seq!['\\']) == seq!['\\', '\\'],
        escape(seq!['\n']) == seq!['\\', 'n'],
        c != '\\' && c != '\n' ==> escape(seq![c]) == seq![c],
    decreases b.len(),
{
    reveal_with_fuel(escape, 2);
    assert(seq![c].drop_last() =~= Seq::empty());
    assert(seq!['\\'].drop_last() =~= Seq::empty());
    assert(seq!['\n'].drop_last() =~= Seq::empty());
    if b.len() == 0 {
        assert(a + b =~= a);
        assert(escape(a) + escape(b) =~= escape(a));
    } else {
        escape_goes_by_character(a, b.drop_last(), c);
        assert((a + b).drop_last() =~= a + b.drop_last());
        assert(escape(a + b) =~= escape(a) + escape(b));
    }
}

/// The help line of a metric carries its name and its whole description, on one
/// line, and is there exactly if there is something to say.
pub proof fn help_carries_the_description(name: Seq<char>, description: Option<Seq<char>>)
    ensures
        help(name, description).len() == 0 <==> (description is None || description->0.len() == 0),
        description is Some && description->0.len() > 0 ==> exists|shown: Seq<char>|
            #![trigger unescape(shown)]
            {
                let said = description->0;
                &&& unescape(shown) == said
                &&& !shown.contains('\n')
                &&& !said.contains('\n') && !said.contains('\\') ==> shown == said
                &&& help(name, description) == "# HELP "@ + name + " "@ + shown + "\n"@
            },
{
    reveal_strlit("# HELP ");
    if let Some(text) = description {
        if text.len() > 0 {
            escape_can_be_undone(text);
            escape_keeps_to_one_line(text);
            assert(unescape(escape(text)) == text);
            if !text.contains('\n') && !text.contains('\\') {
                lemma_plain_text_stays(text);
            }
        }
    }
}

/// A text without backslashes and newlines stays as it is.
proof fn lemma_plain_text_stays(s: Seq<char>)
    requires
        !s.contains('\n'),
        !s.contains('\\'),
    ensures
        escape(s) == s,
    decreases s.len(),
{
    if s.len() > 0 {
        let front = s.drop_last();
        assert forall|i: int| 0 <= i < front.len() implies front[i] != '\n' && front[i] != '\\' by {
            assert(s.contains(s[i]));
        }
        lemma_plain_text_stays(front);
        assert(s.contains(s.last()));
        assert(escape(s) =~= s);
    }
}

/// The value that stands for the observations of a bucket lies in the middle of
/// its range: it is no further from the start than from the end, and at most one
/// nearer.
pub proof fn midpoint_lies_in_the_middle(bucket: Bucket)
    ensures
        bucket.start <= bucket.end ==> bucket.start <= midpoint(bucket) <= bucket.end,
        0 <= (bucket.end - midpoint(bucket)) - (midpoint(bucket) - bucket.start) <= 1,
{
}

/// What each bucket holds is counted and summed, whatever stands next to it: the
/// totals of joined lists add up, and those of nothing are zero.
pub proof fn totals_add_up(a: Seq<Bucket>, b: Seq<Bucket>)
    ensures
        total_count(a + b) == total_count(a) + total_count(b),
        total_sum(a + b) == total_sum(a) + total_sum(b),
        total_count(Seq::empty()) == 0,
        total_sum(Seq::empty()) == 0,
    decreases b.len(),
{
    if b.len() == 0 {
        assert(a + b =~= a);
    } else {
        totals_add_up(a, b.drop_last());
        assert((a + b).drop_last() =~= a + b.drop_last());
    }
}

/// A bucket counts as many observations as it holds, and each of them is summed
/// at a value in its range.
pub proof fn totals_of_a_bucket(bucket: Bucket)
    ensures
        total_count(seq![bucket]) == bucket.count,
        bucket.start <= bucket.end ==> bucket.count * bucket.start <= total_sum(seq![bucket])
            <= bucket.count * bucket.end,
        total_sum(seq![bucket]) * 2 <= bucket.count * (bucket.start + bucket.end),
        bucket.count * (bucket.start + bucket.end) <= total_sum(seq![bucket]) * 2 + bucket.count,
{
    reveal_with_fuel(total_count, 2);
    reveal_with_fuel(total_sum, 2);
    assert(seq![bucket].drop_last() =~= Seq::empty());
    midpoint_lies_in_the_middle(bucket);
    let c = bucket.count as int;
    let s = bucket.start as int;
    let e = bucket.end as int;
    let m = midpoint(bucket) as int;
    assert(total_sum(seq![bucket]) == c * m);
    assert(c * m * 2 <= c * (s + e) && c * (s + e) <= c * m * 2 + c) by (nonlinear_arith)
        requires
            0 <= c,
            0 <= (e - m) - (m - s) <= 1,
    ;
    if s <= e {
        assert(c * s <= c * m <= c * e) by (nonlinear_arith)
            requires
                0 <= c,
                s <= m <= e,
        ;
    }
}

/// The sum of the observations with each taken at the start of its bucket, or
/// with each taken at the end.
pub open spec fn sum_at(buckets: Seq<Bucket>, end: bool) -> nat
    decreases buckets.len(),
{
    if buckets.len() == 0 {
        0
    } else {
        let bucket = buckets.last();
        sum_at(buckets.drop_last(), end) + bucket.count as nat * (if end {
            bucket.end
        } else {
            bucket.start
        }) as nat
    }
}

/// The sum of a histogram lies between that of the starts and that of the ends of
/// the ranges, midway but for what is lost in rounding, which is less than the
/// number of observations.
pub proof fn sum_lies_within_the_ranges(buckets: Seq<Bucket>)
    requires
        forall|i: int| 0 <= i < buckets.len() ==> (#[trigger] buckets[i]).start <= buckets[i].end,
    ensures
        sum_at(buckets, false) <= total_sum(buckets) <= sum_at(buckets, true),
        total_sum(buckets) * 2 <= sum_at(buckets, false) + sum_at(buckets, true),
        sum_at(buckets, false) + sum_at(buckets, true) <= total_sum(buckets) * 2 + total_count(
            buckets,
        ),
    decreases buckets.len(),
{
    if buckets.len() > 0 {
        let front = buckets.drop_last();
        let bucket = buckets.last();
        assert forall|i: int| 0 <= i < front.len() implies (#[trigger] front[i]).start
            <= front[i].end by {
            assert(front[i] == buckets[i]);
        }
        sum_lies_within_the_ranges(front);
        assert(buckets[buckets.len() - 1].start <= buckets[buckets.len() - 1].end);
        totals_add_up(front, seq![bucket]);
        assert(front + seq![bucket] =~= buckets);
        totals_of_a_bucket(bucket);
        let c = bucket.count as int;
        let s = bucket.start as int;
        let e = bucket.end as int;
        assert(c * (s + e) == c * s + c * e) by (nonlinear_arith);
    }
}

/// A counter is shown under its name, with its type and its value.
pub proof fn counter_is_shown_with_its_value(family: Family, value: u64)
    requires
        family.sample == Some(Sample::Counter(value)),
    ensures
        exists|shown: Seq<char>|
            {
                &&& #[trigger] text::is_numeral_of(shown, value as int)
                &&& exposition_text(seq![family]) == help(
                    family.name@,
                    match family.description {
                        Some(text) => Some(text@),
                        None => None,
                    },
                ) + "# TYPE "@ + family.name@ + " counter\n"@ + family.name@ + " "@ + shown
                    + "\n"@
            },
{
    lemma_text_of_one(family);
    reveal_strlit(" counter\n");
    reveal_strlit("counter");
    reveal_strlit(" ");
    reveal_strlit("\n");
    let shown = text::decimal(value as nat);
    text::decimal_is_a_numeral(value as nat);
    assert(exposition_text(seq![family]) =~= help(family.name@, description_of(family))
        + "# TYPE "@ + family.name@ + " counter\n"@ + family.name@ + " "@ + shown + "\n"@);
}

/// A gauge is shown under its name, with its type and its value, sign included.
pub proof fn gauge_is_shown_with_its_value(family: Family, value: i64)
    requires
        family.sample == Some(Sample::Gauge(value)),
    ensures
        exists|shown: Seq<char>|
            {
                &&& #[trigger] text::is_signed_numeral_of(shown, value as int)
                &&& exposition_text(seq![family]) == help(
                    family.name@,
                    match family.description {
                        Some(text) => Some(text@),
                        None => None,
                    },
                ) + "# TYPE "@ + family.name@ + " gauge\n"@ + family.name@ + " "@ + shown + "\n"@
            },
{
    lemma_text_of_one(family);
    reveal_strlit(" gauge\n");
    reveal_strlit("gauge");
    reveal_strlit(" ");
    reveal_strlit("\n");
    let shown = text::signed_decimal(value as int);
    text::signed_decimal_is_a_numeral(value as int);
    assert(exposition_text(seq![family]) =~= help(family.name@, description_of(family))
        + "# TYPE "@ + family.name@ + " gauge\n"@ + family.name@ + " "@ + shown + "\n"@);
}

/// Nothing is shown of a metric without a value.
pub proof fn nothing_is_shown_without_a_value(family: Family)
    requires
        family.sample is None,
    ensures
        exposition_text(seq![family]).len() == 0,
        exposition_text(Seq::empty()).len() == 0,
{
    lemma_text_of_one(family);
}

proof fn lemma_text_of_one(family: Family)
    ensures
        exposition_text(seq![family]) == family_text(family),
{
    reveal_with_fuel(exposition_text, 2);
    assert(seq![family].drop_last() =~= Seq::empty());
    assert(exposition_text(seq![family]) =~= family_text(family));
}

/// A histogram is shown under its name, with its type, a row for each quantile,
/// and its two totals. Each row names its quantile and the end of its bucket. The
/// totals are those of all buckets, less a multiple of what does not fit a
/// machine word.
pub proof fn summary_is_shown_with_its_quantiles_and_totals(
    name: Seq<char>,
    description: Option<Seq<char>>,
    snapshot: Distribution,
)
    ensures
        exists|ends: Seq<Seq<char>>, count: Seq<char>, sum: Seq<char>, n: int, s: int|
            {
                &&& ends.len() == snapshot.quantiles@.len()
                &&& forall|i: int|
                    0 <= i < ends.len() ==> text::is_numeral_of(
                        #[trigger] ends[i],
                        snapshot.quantiles@[i].end as int,
                    )
                &&& #[trigger] text::is_numeral_of(count, n)
                &&& n <= u64::MAX
                &&& (total_count(snapshot.buckets@) - n) % (u64::MAX + 1) == 0
                &&& #[trigger] text::is_numeral_of(sum, s)
                &&& s <= u128::MAX
                &&& (total_sum(snapshot.buckets@) - s) % (u128::MAX + 1) == 0
                &&& summary(name, description, snapshot) == help(name, description) + "# TYPE "@
                    + name + " summary\n"@ + (#[trigger] quantile_rows(
                    name,
                    snapshot.quantiles@,
                    ends,
                )) + name + "_count "@ + count + "\n"@ + name + "_sum "@ + sum + "\n"@
            },
{
    let rows = snapshot.quantiles@;
    let ends = Seq::new(rows.len(), |i: int| text::decimal(rows[i].end as nat));
    let total = total_count(snapshot.buckets@);
    let weight = total_sum(snapshot.buckets@);
    let n = total % (u64::MAX as nat + 1);
    let s = weight % (u128::MAX as nat + 1);
    assert forall|i: int| 0 <= i < ends.len() implies text::is_numeral_of(
        #[trigger] ends[i],
        rows[i].end as int,
    ) by {
        text::decimal_is_a_numeral(rows[i].end as nat);
    }
    text::decimal_is_a_numeral(n);
    text::decimal_is_a_numeral(s);
    lemma_less_the_remainder(total, u64::MAX as nat + 1);
    lemma_less_the_remainder(weight, u128::MAX as nat + 1);
    lemma_quantile_rows(name, rows);
    reveal_strlit(" summary\n");
    reveal_strlit("summary");
    reveal_strlit(" ");
    reveal_strlit("\n");
    reveal_strlit("_count");
    reveal_strlit("_count ");
    reveal_strlit("_sum");
    reveal_strlit("_sum ");
    let count = text::decimal(n);
    let sum = text::decimal(s);
    assert(type_line(name, "summary"@) =~= "# TYPE "@ + name + " summary\n"@);
    assert(sample_line(name + "_count"@, count) =~= name + "_count "@ + count + "\n"@);
    assert(sample_line(name + "_sum"@, sum) =~= name + "_sum "@ + sum + "\n"@);
    assert(summary(name, description, snapshot) =~= help(name, description) + "# TYPE "@ + name
        + " summary\n"@ + quantile_rows(name, rows, ends) + name + "_count "@ + count + "\n"@ + name
        + "_sum "@ + sum + "\n"@);
    assert(text::is_numeral_of(count, n as int) && text::is_numeral_of(sum, s as int));
}

/// One row for each quantile: the name, the quantile in quotes and braces, and
/// what is shown of it.
pub open spec fn quantile_rows(
    name: Seq<char>,
    rows: Seq<QuantileRow>,
    shown: Seq<Seq<char>>,
) -> Seq<char> {
    Seq::new(
        rows.len(),
        |i: int| name + "{quantile=\""@ + rows[i].label@ + "\"} "@ + shown[i] + "\n"@,
    ).flatten()
}

proof fn lemma_quantile_rows(name: Seq<char>, rows: Seq<QuantileRow>)
    ensures
        quantile_lines(name, rows) == quantile_rows(
            name,
            rows,
            Seq::new(rows.len(), |i: int| text::decimal(rows[i].end as nat)),
        ),
    decreases rows.len(),
{
    let shown = Seq::new(rows.len(), |i: int| text::decimal(rows[i].end as nat));
    let lines = Seq::new(
        rows.len(),
        |i: int| name + "{quantile=\""@ + rows[i].label@ + "\"} "@ + shown[i] + "\n"@,
    );
    if rows.len() > 0 {
        let front = rows.drop_last();
        lemma_quantile_rows(name, front);
        let front_shown = Seq::new(front.len(), |i: int| text::decimal(front[i].end as nat));
        let front_lines = Seq::new(
            front.len(),
            |i: int| name + "{quantile=\""@ + front[i].label@ + "\"} "@ + front_shown[i] + "\n"@,
        );
        assert(lines.drop_last() =~= front_lines);
        assert(lines =~= front_lines.push(lines.last()));
        front_lines.lemma_flatten_push(lines.last());
        reveal_strlit("\"}");
        reveal_strlit("\"} ");
        reveal_strlit(" ");
        assert(lines.last() =~= sample_line(
            name + "{quantile=\""@ + rows.last().label@ + "\"}"@,
            text::decimal(rows.last().end as nat),
        ));
    }
}

proof fn lemma_less_the_remainder(n: nat, modulus: nat)
    requires
        modulus > 0,
    ensures
        (n - n % modulus) % (modulus as int) == 0,
        0 <= n % modulus < modulus,
{
    let m = modulus as int;
    vstd::arithmetic::div_mod::lemma_fundamental_div_mod(n as int, m);
    vstd::arithmetic::div_mod::lemma_mod_multiples_basic(n as int / m, m);
    vstd::arithmetic::mul::lemma_mul_is_commutative(n as int / m, m);
}

/// The lines of a histogram among the families are those of its summary.
pub proof fn histogram_is_shown_by_its_summary(family: Family, snapshot: Distribution)
    requires
        family.sample == Some(Sample::Summary(snapshot)),
    ensures
        exposition_text(seq![family]) == summary(
            family.name@,
            match family.description {
                Some(text) => Some(text@),
                None => None,
            },
            snapshot,
        ),
{
    lemma_text_of_one(family);
}

/// A description is taken as it is.
pub proof fn description_is_taken_as_it_is(description: Option<&str>, family: Family)
    ensures
        description is None <==> optional_text(description) is None,
        description matches Some(text) ==> optional_text(description) == Some(text@),
        family.description is None <==> description_of(family) is None,
        family.description matches Some(text) ==> description_of(family) == Some(text@),
{
}

} // verus!
