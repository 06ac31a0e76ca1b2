//! What the plugin reads from `pactl` output, and the `pactl` argument
//! lists it sends. Running `pactl` itself is left to the caller: these
//! functions take its standard output as text and give back arguments.
use vstd::prelude::*;
use crate::text::{
    chars_eq, chars_of, contains, contains_seq, extend_chars, find_char, i32_decimal,
    index_of_char, index_of_ws, occurs_at, int_decimal, is_whitespace, is_ws, join_lines, lemma_index_of_ws, lemma_trim_ends,
    lines, parse_i32, parse_i32_chars, split_lines, string_from, sub_chars, trim, trim_chars, words,
};

verus! {

// ---------------------------------------------------------------------
// Specifications
// ---------------------------------------------------------------------

/// A source of that name is listed (an empty name is never listed).
pub open spec fn source_listed(listing: Seq<char>, name: Seq<char>) -> bool {
    name.len() > 0 && contains_seq(listing, name)
}

/// The mute state that `pactl get-source-mute` reports.
pub open spec fn mute_state(output: Seq<char>) -> Option<bool> {
    if contains_seq(output, "Mute: yes"@) {
        Some(true)
    } else if contains_seq(output, "Mute: no"@) {
        Some(false)
    } else {
        None
    }
}

/// The number of the first word that is an `i32` followed by one `%`.
pub open spec fn first_percent(ws: Seq<Seq<char>>) -> Option<i32>
    decreases ws.len(),
{
    if ws.len() == 0 {
        None
    } else {
        let t = ws[0];
        if t.len() > 0 && t.last() == '%' && parse_i32(t.drop_last()) is Some {
            parse_i32(t.drop_last())
        } else {
            first_percent(ws.drop_first())
        }
    }
}

/// The volume percentage that `pactl get-source-volume` reports.
pub open spec fn volume_percent(output: Seq<char>) -> Option<i32> {
    first_percent(words(output))
}

/// The system's default sink as `pactl get-default-sink` prints it.
pub open spec fn default_sink_name(output: Seq<char>) -> Option<Seq<char>> {
    if trim(output).len() == 0 {
        None
    } else {
        Some(trim(output))
    }
}

/// The first three tab-separated fields of a line of
/// `pactl list modules short`: the id, the module name and the rest.
pub open spec fn module_fields(line: Seq<char>) -> Option<(Seq<char>, Seq<char>, Seq<char>)> {
    let a = index_of_char(line, '\t');
    if a >= line.len() {
        None
    } else {
        let rest = line.skip(a + 1 as int);
        let b = index_of_char(rest, '\t');
        if b >= rest.len() {
            None
        } else {
            Some((line.take(a as int), rest.take(b as int), rest.skip(b + 1 as int)))
        }
    }
}

/// The line describes a loopback module whose arguments name both the source and the sink.
pub open spec fn is_loopback_line(line: Seq<char>, source: Seq<char>, sink: Seq<char>) -> bool {
    match module_fields(line) {
        Some((id, kind, args)) => kind == "module-loopback"@ && contains_seq(args, source)
            && contains_seq(args, sink),
        None => false,
    }
}

/// The ids of the loopback modules among `ls` that join the source to the sink, in order.
pub open spec fn loopback_ids(ls: Seq<Seq<char>>, source: Seq<char>, sink: Seq<char>) -> Seq<
    Seq<char>,
>
    decreases ls.len(),
{
    if ls.len() == 0 {
        seq![]
    } else {
        let prev = loopback_ids(ls.drop_last(), source, sink);
        match module_fields(ls.last()) {
            Some((id, kind, args)) => if is_loopback_line(ls.last(), source, sink) {
                prev.push(id)
            } else {
                prev
            },
            None => prev,
        }
    }
}

/// The loopback module ids in a `pactl list modules short` listing; none when the
/// source or the sink is empty.
pub open spec fn loopback_module_ids(listing: Seq<char>, source: Seq<char>, sink: Seq<char>) -> Seq<
    Seq<char>,
> {
    if source.len() == 0 || sink.len() == 0 {
        seq![]
    } else {
        loopback_ids(lines(listing), source, sink)
    }
}

/// The second tab-separated field of a line, when the line has a tab.
pub open spec fn second_field(line: Seq<char>) -> Option<Seq<char>> {
    let a = index_of_char(line, '\t');
    if a >= line.len() {
        None
    } else {
        let rest = line.skip(a + 1 as int);
        Some(rest.take(index_of_char(rest, '\t') as int))
    }
}

/// The second fields of the lines that have one, in order.
pub open spec fn second_fields(ls: Seq<Seq<char>>) -> Seq<Seq<char>>
    decreases ls.len(),
{
    if ls.len() == 0 {
        seq![]
    } else {
        let prev = second_fields(ls.drop_last());
        match second_field(ls.last()) {
            Some(f) => prev.push(f),
            None => prev,
        }
    }
}

/// The names of a `pactl list <kind> short` listing, one per line.
pub open spec fn listed_names(listing: Seq<char>) -> Seq<char> {
    join_lines(second_fields(lines(listing)))
}

// ---------------------------------------------------------------------
// Laws
// ---------------------------------------------------------------------

/// A source is listed exactly when its non-empty name occurs somewhere in the
/// listing, whatever else the listing holds (other columns, other sources, the
/// state of the source).
pub proof fn lemma_source_listed_is_occurrence(
    listing: Seq<char>,
    name: Seq<char>,
    before: Seq<char>,
    after: Seq<char>,
)
    ensures
        source_listed(listing, name) <==> name.len() > 0 && exists|i: int|
            0 <= i && i + name.len() <= listing.len() && #[trigger] listing.subrange(
                i,
                i + name.len(),
            ) == name,
        name.len() > 0 ==> source_listed(before + name + after, name),
{
    if source_listed(listing, name) {
        let i = choose|i: int| occurs_at(listing, name, i);
        assert(listing.subrange(i, i + name.len()) == name);
    }
    if name.len() > 0 && exists|i: int|
        0 <= i && i + name.len() <= listing.len() && #[trigger] listing.subrange(i, i + name.len())
            == name {
        let i = choose|i: int|
            0 <= i && i + name.len() <= listing.len() && #[trigger] listing.subrange(
                i,
                i + name.len(),
            ) == name;
        assert(occurs_at(listing, name, i));
    }
    let whole = before + name + after;
    assert(whole.subrange(before.len() as int, (before.len() + name.len()) as int) =~= name);
    assert(occurs_at(whole, name, before.len() as int));
}

/// The mute state reads "Mute: yes" as muted wherever it stands in the
/// output, reads "Mute: no" as unmuted when "Mute: yes" is absent, and reads
/// nothing from an output with neither.
pub proof fn lemma_mute_state_reads(before: Seq<char>, after: Seq<char>, output: Seq<char>)
    ensures
        mute_state(before + "Mute: yes"@ + after) == Some(true),
        !contains_seq(before + "Mute: no"@ + after, "Mute: yes"@) ==> mute_state(
            before + "Mute: no"@ + after,
        ) == Some(false),
        !contains_seq(output, "Mute: yes"@) && !contains_seq(output, "Mute: no"@) ==> mute_state(
            output,
        ) is None,
{
    let yes = before + "Mute: yes"@ + after;
    assert(yes.subrange(before.len() as int, (before.len() + "Mute: yes"@.len()) as int)
        =~= "Mute: yes"@);
    assert(occurs_at(yes, "Mute: yes"@, before.len() as int));
    let no = before + "Mute: no"@ + after;
    assert(no.subrange(before.len() as int, (before.len() + "Mute: no"@.len()) as int)
        =~= "Mute: no"@);
    assert(occurs_at(no, "Mute: no"@, before.len() as int));
}

/// The names of a listing split like the listing: the names of two pieces of
/// text one after the other are the names of the first, then those of the second.
pub proof fn lemma_second_fields_concat(a: Seq<Seq<char>>, b: Seq<Seq<char>>)
    ensures
        second_fields(a + b) == second_fields(a) + second_fields(b),
    decreases b.len(),
{
    if b.len() == 0 {
        assert(a + b =~= a);
        assert(second_fields(a) + second_fields(b) =~= second_fields(a));
    } else {
        lemma_second_fields_concat(a, b.drop_last());
        assert((a + b).drop_last() =~= a + b.drop_last());
        assert((a + b).last() == b.last());
        match second_field(b.last()) {
            Some(f) => {
                assert(second_fields(a) + second_fields(b.drop_last()).push(f) =~= (second_fields(a)
                    + second_fields(b.drop_last())).push(f));
            },
            None => {},
        }
    }
}

/// Every line that has a tab contributes its name, and lines without one add
/// nothing: there are as many names as lines with a tab.
pub proof fn lemma_second_fields_every_line(ls: Seq<Seq<char>>, i: int)
    requires
        0 <= i < ls.len(),
    ensures
        second_field(ls[i]) matches Some(f) ==> second_fields(ls).contains(f),
        second_fields(ls).len() <= ls.len(),
        (forall|j: int| 0 <= j < ls.len() ==> #[trigger] second_field(ls[j]) is Some)
            ==> second_fields(ls).len() == ls.len(),
    decreases ls.len(),
{
    let front = ls.take(i);
    let back = ls.skip(i + 1);
    assert(ls =~= front + seq![ls[i]] + back);
    lemma_second_fields_concat(front + seq![ls[i]], back);
    lemma_second_fields_concat(front, seq![ls[i]]);
    assert(seq![ls[i]].drop_last() =~= Seq::<Seq<char>>::empty());
    if let Some(f) = second_field(ls[i]) {
        let one = seq![ls[i]];
        let mid = second_fields(one);
        assert(one.last() == ls[i]);
        assert(second_fields(one.drop_last()) =~= Seq::<Seq<char>>::empty());
        assert(mid =~= seq![f]);
        let all = second_fields(front) + mid + second_fields(back);
        assert(all[second_fields(front).len() as int] == f);
    }
    lemma_second_fields_len(ls);
}

proof fn lemma_second_fields_len(ls: Seq<Seq<char>>)
    ensures
        second_fields(ls).len() <= ls.len(),
        (forall|j: int| 0 <= j < ls.len() ==> #[trigger] second_field(ls[j]) is Some)
            ==> second_fields(ls).len() == ls.len(),
    decreases ls.len(),
{
    if ls.len() > 0 {
        let p = ls.drop_last();
        lemma_second_fields_len(p);
        if forall|j: int| 0 <= j < ls.len() ==> #[trigger] second_field(ls[j]) is Some {
            assert forall|j: int| 0 <= j < p.len() implies #[trigger] second_field(p[j]) is Some by {
                assert(p[j] == ls[j]);
                assert(second_field(ls[j]) is Some);
            }
            assert(second_field(ls[ls.len() - 1]) is Some);
        }
    }
}

/// The loopback ids of two pieces of text one after the other are those of
/// the first, then those of the second.
pub proof fn lemma_loopback_ids_concat(
    a: Seq<Seq<char>>,
    b: Seq<Seq<char>>,
    source: Seq<char>,
    sink: Seq<char>,
)
    ensures
        loopback_ids(a + b, source, sink) == loopback_ids(a, source, sink) + loopback_ids(
            b,
            source,
            sink,
        ),
    decreases b.len(),
{
    if b.len() == 0 {
        assert(a + b =~= a);
        assert(loopback_ids(a, source, sink) + loopback_ids(b, source, sink) =~= loopback_ids(
            a,
            source,
            sink,
        ));
    } else {
        lemma_loopback_ids_concat(a, b.drop_last(), source, sink);
        assert((a + b).drop_last() =~= a + b.drop_last());
        assert((a + b).last() == b.last());
        match module_fields(b.last()) {
            Some((id, kind, args)) => {
                assert(loopback_ids(a, source, sink) + loopback_ids(b.drop_last(), source, sink).push(
                    id,
                ) =~= (loopback_ids(a, source, sink) + loopback_ids(b.drop_last(), source, sink)).push(
                    id,
                ));
            },
            None => {},
        }
    }
}

/// A line is a loopback joining the source to the sink exactly when its id is
/// among the loopback ids of a listing made of that line alone; a listing
/// holds no loopback id exactly when none of its lines is such a loopback.
pub proof fn lemma_loopback_ids_lines(ls: Seq<Seq<char>>, source: Seq<char>, sink: Seq<char>)
    ensures
        loopback_ids(ls, source, sink).len() == 0 <==> forall|j: int|
            0 <= j < ls.len() ==> !is_loopback_line(#[trigger] ls[j], source, sink),
    decreases ls.len(),
{
    if ls.len() > 0 {
        let p = ls.drop_last();
        lemma_loopback_ids_lines(p, source, sink);
        if loopback_ids(ls, source, sink).len() == 0 {
            assert forall|j: int| 0 <= j < ls.len() implies !is_loopback_line(
                #[trigger] ls[j],
                source,
                sink,
            ) by {
                if j < ls.len() - 1 {
                    assert(ls[j] == p[j]);
                }
            }
        } else {
            if forall|j: int| 0 <= j < ls.len() ==> !is_loopback_line(#[trigger] ls[j], source, sink) {
                assert forall|j: int| 0 <= j < p.len() implies !is_loopback_line(
                    #[trigger] p[j],
                    source,
                    sink,
                ) by {
                    assert(p[j] == ls[j]);
                }
                assert(!is_loopback_line(ls[ls.len() - 1], source, sink));
            }
        }
    }
}

/// An unconfigured source or sink is never considered mapped, and an
/// unconfigured source never exists: the empty string, which would match any
/// text, matches nothing here.
pub proof fn lemma_unconfigured_matches_nothing(listing: Seq<char>, name: Seq<char>)
    ensures
        !source_listed(listing, Seq::empty()),
        loopback_module_ids(listing, Seq::empty(), name).len() == 0,
        loopback_module_ids(listing, name, Seq::empty()).len() == 0,
{
}

/// A default sink, when one is reported, is a non-empty name with no
/// whitespace at either end.
pub proof fn lemma_default_sink_trimmed(output: Seq<char>)
    ensures
        default_sink_name(output) matches Some(s) ==> s.len() > 0 && !is_ws(s[0]) && !is_ws(
            s.last(),
        ),
{
    lemma_trim_ends(output);
}

// ---------------------------------------------------------------------
// Executable functions
// ---------------------------------------------------------------------

/// An owned copy of a string slice.
pub fn owned(s: &str) -> (r: String)
    ensures
        r@ == s@,
{
    s.to_owned()
}

/// The argument list `[a, b]`.
pub fn args2(a: &str, b: &str) -> (r: Vec<String>)
    ensures
        r.deep_view() == seq![a@, b@],
{
    let mut r: Vec<String> = Vec::new();
    r.push(owned(a));
    r.push(owned(b));
    assert(r.deep_view() =~= seq![a@, b@]);
    r
}

/// `prefix` followed by `s`, as `format!("{prefix}{s}")` writes it.
pub fn prefixed(prefix: &str, s: &str) -> (r: String)
    ensures
        r@ == prefix@ + s@,
{
    let mut v = chars_of(prefix);
    let w = chars_of(s);
    extend_chars(&mut v, w.as_slice());
    string_from(v.as_slice())
}

/// The argument list `[a, b, c]`.
pub fn args3(a: &str, b: &str, c: &str) -> (r: Vec<String>)
    ensures
        r.deep_view() == seq![a@, b@, c@],
{
    let mut r: Vec<String> = Vec::new();
    r.push(owned(a));
    r.push(owned(b));
    r.push(owned(c));
    assert(r.deep_view() =~= seq![a@, b@, c@]);
    r
}

/// Whether the source `name` appears in the output of `pactl list sources short`.
pub fn source_exists(sources_listing: &str, name: &str) -> (b: bool)
    ensures
        b == source_listed(sources_listing@, name@),
{
    if name.is_empty() {
        return false;
    }
    let hay = chars_of(sources_listing);
    let needle = chars_of(name);
    contains(hay.as_slice(), needle.as_slice())
}

/// The mute state read from the output of `pactl get-source-mute`.
pub fn get_mute(output: &str) -> (r: Option<bool>)
    ensures
        r == mute_state(output@),
{
    let hay = chars_of(output);
    let yes = chars_of("Mute: yes");
    if contains(hay.as_slice(), yes.as_slice()) {
        return Some(true);
    }
    let no = chars_of("Mute: no");
    if contains(hay.as_slice(), no.as_slice()) {
        Some(false)
    } else {
        None
    }
}

proof fn lemma_words_ws(t: Seq<char>)
    requires
        t.len() > 0,
        is_ws(t[0]),
    ensures
        words(t) == words(t.drop_first()),
{
}

proof fn lemma_words_token(t: Seq<char>, k: int)
    requires
        0 < k <= t.len(),
        !is_ws(t[0]),
        index_of_ws(t) == k,
    ensures
        words(t) == seq![t.take(k)] + words(t.skip(k)),
{
}

/// The volume percentage read from the output of `pactl get-source-volume`:
/// the first whitespace-separated word made of an `i32` and one `%`.
pub fn get_volume_percent(output: &str) -> (r: Option<i32>)
    ensures
        r == volume_percent(output@),
{
    let v = chars_of(output);
    let n = v.len();
    let mut i: usize = 0;
    assert(v@.skip(0) =~= v@);
    while i < n
        invariant
            n == v@.len(),
            v@ == output@,
            i <= n,
            first_percent(words(v@)) == first_percent(words(v@.skip(i as int))),
        decreases n - i,
    {
        let ghost t = v@.skip(i as int);
        if is_whitespace(v[i]) {
            proof {
                lemma_words_ws(t);
                assert(t.drop_first() =~= v@.skip(i + 1));
            }
            i = i + 1;
        } else {
            let mut k: usize = i;
            while k < n && !is_whitespace(v[k])
                invariant
                    n == v@.len(),
                    i <= k <= n,
                    forall|j: int| i <= j < k ==> !is_ws(v@[j]),
                decreases n - k,
            {
                k = k + 1;
            }
            proof {
                assert forall|j: int| 0 <= j < k - i implies !is_ws(t[j]) by {
                    assert(t[j] == v@[i + j]);
                }
                if k < n {
                    assert(t[k - i] == v@[k as int]);
                }
                lemma_index_of_ws(t, k - i);
                assert(v@[i as int] == t[0]);
                lemma_words_token(t, k - i);
                assert(t.skip(k - i) =~= v@.skip(k as int));
                assert(t.take(k - i) =~= v@.subrange(i as int, k as int));
                assert((seq![t.take(k - i)] + words(t.skip(k - i))).drop_first() =~= words(
                    t.skip(k - i),
                ));
            }
            if v[k - 1] == '%' {
                let num = sub_chars(v.as_slice(), i, k - 1);
                let parsed = parse_i32_chars(num.as_slice());
                let ghost tok = v@.subrange(i as int, k as int);
                let ghost ws = seq![tok] + words(v@.skip(k as int));
                proof {
                    assert(tok.drop_last() =~= num@);
                    assert(tok.last() == '%');
                    assert(ws[0] == tok);
                    assert(words(t) == ws);
                }
                if parsed.is_some() {
                    assert(tok.len() > 0);
                    assert(first_percent(ws) == parsed);
                    return parsed;
                }
            }
            i = k;
        }
    }
    assert(v@.skip(n as int) =~= Seq::<char>::empty());
    None
}

/// The system's default sink read from the output of `pactl get-default-sink`:
/// the output without surrounding whitespace, or `None` when that is empty.
pub fn default_sink(output: &str) -> (r: Option<String>)
    ensures
        match r {
            Some(s) => default_sink_name(output@) == Some(s@),
            None => default_sink_name(output@) is None,
        },
{
    let v = chars_of(output);
    let t = trim_chars(v.as_slice());
    if t.len() == 0 {
        None
    } else {
        Some(string_from(t.as_slice()))
    }
}

/// The arguments of `pactl` that mute (`"1"`) or unmute (`"0"`) a source.
pub fn set_mute(name: &str, muted: bool) -> (r: Vec<String>)
    ensures
        r.deep_view() == seq!["set-source-mute"@, name@, if muted { "1"@ } else { "0"@ }],
{
    args3("set-source-mute", name, if muted { "1" } else { "0" })
}

/// The arguments of `pactl` that set a source's volume to `percent` percent.
pub fn set_volume_percent(name: &str, percent: i32) -> (r: Vec<String>)
    ensures
        r.deep_view() == seq!["set-source-volume"@, name@, int_decimal(percent as int) + seq!['%']],
{
    let mut value = i32_decimal(percent);
    value.push('%');
    assert(value@ =~= int_decimal(percent as int) + seq!['%']);
    let mut r: Vec<String> = Vec::new();
    r.push(owned("set-source-volume"));
    r.push(owned(name));
    r.push(string_from(value.as_slice()));
    assert(r.deep_view()[2] == value@);
    assert(r.deep_view() =~= seq![
        "set-source-volume"@,
        name@,
        int_decimal(percent as int) + seq!['%'],
    ]);
    r
}

/// The fields of a module line, as `splitn(3, '\t')` cuts them.
#[verifier::rlimit(40)]
fn module_fields_exec(line: &[char]) -> (r: Option<(Vec<char>, Vec<char>, Vec<char>)>)
    ensures
        match r {
            Some((id, kind, args)) => module_fields(line@) == Some((id@, kind@, args@)),
            None => module_fields(line@) is None,
        },
{
    let n = line.len();
    assert(line@.skip(0) =~= line@);
    let a = find_char(line, 0, '\t');
    if a == n {
        return None;
    }
    let b = find_char(line, a + 1, '\t');
    let ghost rest = line@.skip(a + 1);
    if b == n {
        return None;
    }
    let id = sub_chars(line, 0, a);
    let kind = sub_chars(line, a + 1, b);
    let args = sub_chars(line, b + 1, n);
    proof {
        assert(line@.take(a as int) =~= id@);
        assert(rest.take(b - a - 1) =~= kind@);
        assert(rest.skip(b - a - 1 + 1) =~= args@);
    }
    Some((id, kind, args))
}

/// The ids of the loaded `module-loopback` modules, in the output of
/// `pactl list modules short`, whose arguments name both the source and the
/// sink. An empty source or sink matches nothing.
pub fn find_loopback_module_ids(modules_listing: &str, source: &str, sink: &str) -> (r: Vec<String>)
    ensures
        r.deep_view() == loopback_module_ids(modules_listing@, source@, sink@),
{
    let mut ids: Vec<String> = Vec::new();
    if source.is_empty() || sink.is_empty() {
        assert(ids.deep_view() =~= Seq::<Seq<char>>::empty());
        return ids;
    }
    let v = chars_of(modules_listing);
    let src = chars_of(source);
    let snk = chars_of(sink);
    let loopback = chars_of("module-loopback");
    let ls = split_lines(v.as_slice());
    let ghost all = lines(v@);
    let mut i: usize = 0;
    assert(ids.deep_view() =~= Seq::<Seq<char>>::empty());
    assert(all.take(0) =~= Seq::<Seq<char>>::empty());
    while i < ls.len()
        invariant
            i <= ls@.len(),
            ls@.len() == all.len(),
            forall|j: int| 0 <= j < ls@.len() ==> #[trigger] ls@[j]@ == all[j],
            src@ == source@,
            snk@ == sink@,
            loopback@ == "module-loopback"@,
            ids.deep_view() == loopback_ids(all.take(i as int), source@, sink@),
        decreases ls.len() - i,
    {
        let line = &ls[i];
        proof {
            assert(all.take(i + 1).drop_last() =~= all.take(i as int));
            assert(all.take(i + 1).last() == line@);
        }
        match module_fields_exec(line.as_slice()) {
            Some((id, kind, args)) => {
                if chars_eq(kind.as_slice(), loopback.as_slice()) && contains(
                    args.as_slice(),
                    src.as_slice(),
                ) && contains(args.as_slice(), snk.as_slice()) {
                    let ghost before = ids.deep_view();
                    ids.push(string_from(id.as_slice()));
                    assert(ids.deep_view() =~= before.push(id@));
                }
            },
            None => {},
        }
        i = i + 1;
    }
    assert(all.take(ls.len() as int) =~= all);
    ids
}

/// Whether a loopback joins the source to the sink in the output of
/// `pactl list modules short`.
pub fn is_mapped(modules_listing: &str, source: &str, sink: &str) -> (b: bool)
    ensures
        b == (loopback_module_ids(modules_listing@, source@, sink@).len() > 0),
{
    let ids = find_loopback_module_ids(modules_listing, source, sink);
    ids.len() > 0
}

/// The second field of a line, as `split('\t').nth(1)` gives it.
fn second_field_exec(line: &[char]) -> (r: Option<Vec<char>>)
    ensures
        match r {
            Some(f) => second_field(line@) == Some(f@),
            None => second_field(line@) is None,
        },
{
    let n = line.len();
    assert(line@.skip(0) =~= line@);
    let a = find_char(line, 0, '\t');
    if a == n {
        return None;
    }
    let b = find_char(line, a + 1, '\t');
    let f = sub_chars(line, a + 1, b);
    assert(line@.skip(a + 1).take(b - a - 1) =~= f@);
    Some(f)
}

/// The names of a `pactl list <kind> short` listing (the second field of each
/// line that has one), one per line.
pub fn pactl_list_names(listing: &str) -> (r: String)
    ensures
        r@ == listed_names(listing@),
{
    let v = chars_of(listing);
    let ls = split_lines(v.as_slice());
    let ghost all = lines(v@);
    let mut out: Vec<char> = Vec::new();
    let mut count: usize = 0;
    let mut i: usize = 0;
    assert(all.take(0) =~= Seq::<Seq<char>>::empty());
    while i < ls.len()
        invariant
            i <= ls@.len(),
            ls@.len() == all.len(),
            forall|j: int| 0 <= j < ls@.len() ==> #[trigger] ls@[j]@ == all[j],
            out@ == join_lines(second_fields(all.take(i as int))),
            count == second_fields(all.take(i as int)).len(),
            count <= i,
        decreases ls.len() - i,
    {
        let line = &ls[i];
        let ghost names = second_fields(all.take(i as int));
        proof {
            assert(all.take(i + 1).drop_last() =~= all.take(i as int));
            assert(all.take(i + 1).last() == line@);
        }
        match second_field_exec(line.as_slice()) {
            Some(f) => {
                if count > 0 {
                    out.push('\n');
                }
                extend_chars(&mut out, f.as_slice());
                proof {
                    let next = names.push(f@);
                    assert(next.drop_last() =~= names);
                    if count == 0 {
                        assert(names.len() == 0);
                        assert(join_lines(next) == f@);
                        assert(out@ =~= f@);
                    } else {
                        assert(out@ =~= join_lines(names) + seq!['\n'] + f@);
                    }
                }
                count = count + 1;
            },
            None => {},
        }
        i = i + 1;
    }
    assert(all.take(ls.len() as int) =~= all);
    string_from(out.as_slice())
}

} // verus!
