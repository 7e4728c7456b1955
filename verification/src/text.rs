//! The character-level model shared by every route type: boundary trimming,
//! splitting a path on `/`, and joining components back into a path.

use vstd::prelude::*;
use vstd::string::StringExecFns;

verus! {

/// The characters that component trimming removes at a boundary: the
/// characters with Unicode's White_Space property, the same set that
/// `char::is_whitespace` recognizes.
pub open spec fn is_space(c: char) -> bool {
    let n = c as u32;
    (9 <= n && n <= 13) || n == 32 || n == 133 || n == 160 || n == 0x1680 || (0x2000 <= n && n
        <= 0x200a) || n == 0x2028 || n == 0x2029 || n == 0x202f || n == 0x205f || n == 0x3000
}

/// `s` without its leading whitespace.
pub open spec fn trim_front(s: Seq<char>) -> Seq<char>
    decreases s.len(),
{
    if s.len() > 0 && is_space(s[0]) {
        trim_front(s.drop_first())
    } else {
        s
    }
}

/// `s` without its trailing whitespace.
pub open spec fn trim_back(s: Seq<char>) -> Seq<char>
    decreases s.len(),
{
    if s.len() > 0 && is_space(s.last()) {
        trim_back(s.drop_last())
    } else {
        s
    }
}

/// `s` without leading and trailing whitespace.
pub open spec fn trim_text(s: Seq<char>) -> Seq<char> {
    trim_back(trim_front(s))
}

/// `trim_front` drops exactly the leading run of whitespace.
proof fn lemma_trim_front_at(s: Seq<char>, i: int)
    requires
        0 <= i <= s.len(),
        forall|k: int| 0 <= k < i ==> is_space(s[k]),
        i == s.len() || !is_space(s[i]),
    ensures
        trim_front(s) == s.skip(i),
    decreases i,
{
    if i == 0 {
        assert(s.skip(0) =~= s);
    } else {
        assert(is_space(s[0]));
        lemma_trim_front_at(s.drop_first(), i - 1);
        assert(s.drop_first().skip(i - 1) =~= s.skip(i));
    }
}

/// `trim_back` drops exactly the trailing run of whitespace.
proof fn lemma_trim_back_at(s: Seq<char>, j: int)
    requires
        0 <= j <= s.len(),
        forall|k: int| j <= k < s.len() ==> is_space(s[k]),
        j == 0 || !is_space(s[j - 1]),
    ensures
        trim_back(s) == s.take(j),
    decreases s.len(),
{
    if j == s.len() {
        if s.len() > 0 {
            assert(!is_space(s.last()));
        }
        assert(s.take(j) =~= s);
    } else {
        assert(is_space(s.last()));
        lemma_trim_back_at(s.drop_last(), j);
        assert(s.drop_last().take(j) =~= s.take(j));
    }
}

/// `trim_front` only ever drops a prefix.
proof fn lemma_trim_front_is_skip(s: Seq<char>)
    ensures
        exists|i: int| 0 <= i <= s.len() && trim_front(s) == s.skip(i),
    decreases s.len(),
{
    if s.len() > 0 && is_space(s[0]) {
        lemma_trim_front_is_skip(s.drop_first());
        let i = choose|i: int|
            0 <= i <= s.drop_first().len() && trim_front(s.drop_first()) == s.drop_first().skip(i);
        assert(s.drop_first().skip(i) =~= s.skip(i + 1));
    } else {
        assert(s.skip(0) =~= s);
    }
}

/// `trim_back` only ever drops a suffix.
proof fn lemma_trim_back_is_take(s: Seq<char>)
    ensures
        exists|j: int| 0 <= j <= s.len() && trim_back(s) == s.take(j),
    decreases s.len(),
{
    if s.len() > 0 && is_space(s.last()) {
        lemma_trim_back_is_take(s.drop_last());
        let j = choose|j: int|
            0 <= j <= s.drop_last().len() && trim_back(s.drop_last()) == s.drop_last().take(j);
        assert(s.drop_last().take(j) =~= s.take(j));
    } else {
        assert(s.take(s.len() as int) =~= s);
    }
}

/// What trimming keeps, it keeps without whitespace at either boundary.
pub proof fn lemma_trim_text_clean(s: Seq<char>)
    ensures
        trim_text(s).len() > 0 ==> !is_space(trim_text(s)[0]) && !is_space(trim_text(s).last()),
    decreases s.len(),
{
    if trim_text(s).len() > 0 {
        lemma_trim_back_last(trim_front(s));
        lemma_trim_back_is_take(trim_front(s));
        lemma_trim_front_first(s);
        let j = choose|j: int|
            0 <= j <= trim_front(s).len() && trim_back(trim_front(s)) == trim_front(s).take(j);
        assert(trim_text(s)[0] == trim_front(s)[0]);
    }
}

/// `trim_front` never leaves leading whitespace.
proof fn lemma_trim_front_first(s: Seq<char>)
    ensures
        trim_front(s).len() > 0 ==> !is_space(trim_front(s)[0]),
    decreases s.len(),
{
    if s.len() > 0 && is_space(s[0]) {
        lemma_trim_front_first(s.drop_first());
    }
}

/// `trim_back` never leaves trailing whitespace.
proof fn lemma_trim_back_last(s: Seq<char>)
    ensures
        trim_back(s).len() > 0 ==> !is_space(trim_back(s).last()),
    decreases s.len(),
{
    if s.len() > 0 && is_space(s.last()) {
        lemma_trim_back_last(s.drop_last());
    }
}

/// Trimming text that is already clean at both boundaries changes nothing.
pub proof fn lemma_trim_identity(s: Seq<char>)
    requires
        s.len() == 0 || (!is_space(s[0]) && !is_space(s.last())),
    ensures
        trim_text(s) == s,
{
    lemma_trim_front_at(s, 0);
    assert(s.skip(0) =~= s);
    lemma_trim_back_at(s, s.len() as int);
    assert(s.take(s.len() as int) =~= s);
}

/// Trimming cannot introduce a separator.
pub proof fn lemma_trim_no_slash(s: Seq<char>)
    requires
        has_no_slash(s),
    ensures
        has_no_slash(trim_text(s)),
{
    lemma_trim_front_is_skip(s);
    let i = choose|i: int| 0 <= i <= s.len() && trim_front(s) == s.skip(i);
    lemma_trim_back_is_take(trim_front(s));
    let j = choose|j: int|
        0 <= j <= trim_front(s).len() && trim_back(trim_front(s)) == trim_front(s).take(j);
    assert forall|k: int| 0 <= k < trim_text(s).len() implies trim_text(s)[k] != '/' by {
        assert(trim_text(s)[k] == s[i + k]);
    }
}

/// True when no character of `s` is the path separator `/`.
pub open spec fn has_no_slash(s: Seq<char>) -> bool {
    forall|k: int| 0 <= k < s.len() ==> s[k] != '/'
}

/// The components of `s`, split on every `/`. Splitting keeps empty
/// components; the empty text has one empty component.
pub open spec fn split_on_slash(s: Seq<char>) -> Seq<Seq<char>>
    decreases s.len(),
{
    if s.len() == 0 {
        seq![s]
    } else if s[0] == '/' {
        seq![Seq::<char>::empty()] + split_on_slash(s.drop_first())
    } else {
        let rest = split_on_slash(s.drop_first());
        seq![seq![s[0]] + rest[0]] + rest.drop_first()
    }
}

/// The components joined back together with `/` between each pair.
pub open spec fn join_with_slash(parts: Seq<Seq<char>>) -> Seq<char>
    decreases parts.len(),
{
    if parts.len() == 0 {
        Seq::<char>::empty()
    } else if parts.len() == 1 {
        parts[0]
    } else {
        parts[0] + seq!['/'] + join_with_slash(parts.drop_first())
    }
}

/// A route's canonical string: `/` followed by the components joined with `/`.
pub open spec fn rendered_path(parts: Seq<Seq<char>>) -> Seq<char> {
    seq!['/'] + join_with_slash(parts)
}

/// Splitting always yields at least one component.
pub proof fn lemma_split_len(s: Seq<char>)
    ensures
        split_on_slash(s).len() >= 1,
    decreases s.len(),
{
    if s.len() > 0 {
        lemma_split_len(s.drop_first());
    }
}

/// No component produced by splitting contains a separator.
pub proof fn lemma_split_components_have_no_slash(s: Seq<char>)
    ensures
        forall|k: int|
            0 <= k < split_on_slash(s).len() ==> has_no_slash(#[trigger] split_on_slash(s)[k]),
    decreases s.len(),
{
    if s.len() == 0 {
    } else if s[0] == '/' {
        lemma_split_components_have_no_slash(s.drop_first());
        assert forall|k: int| 0 <= k < split_on_slash(s).len() implies has_no_slash(
            #[trigger] split_on_slash(s)[k],
        ) by {
            if k > 0 {
                assert(split_on_slash(s)[k] == split_on_slash(s.drop_first())[k - 1]);
            }
        }
    } else {
        lemma_split_components_have_no_slash(s.drop_first());
        lemma_split_len(s.drop_first());
        let rest = split_on_slash(s.drop_first());
        assert forall|k: int| 0 <= k < split_on_slash(s).len() implies has_no_slash(
            #[trigger] split_on_slash(s)[k],
        ) by {
            if k == 0 {
                assert(has_no_slash(rest[0]));
                assert(split_on_slash(s)[0] == seq![s[0]] + rest[0]);
                assert(forall|m: int|
                    0 <= m < (seq![s[0]] + rest[0]).len() ==> (seq![s[0]] + rest[0])[m] != '/');
            } else {
                assert(split_on_slash(s)[k] == rest.drop_first()[k - 1]);
                assert(rest.drop_first()[k - 1] == rest[k]);
            }
        }
    }
}

/// Splitting a text without separators yields that one component.
pub proof fn lemma_split_without_slash(s: Seq<char>)
    requires
        has_no_slash(s),
    ensures
        split_on_slash(s) == seq![s],
    decreases s.len(),
{
    if s.len() == 0 {
    } else {
        assert(s[0] != '/');
        assert(has_no_slash(s.drop_first()));
        lemma_split_without_slash(s.drop_first());
        let rest = split_on_slash(s.drop_first());
        assert(rest[0] == s.drop_first());
        assert(seq![s[0]] + s.drop_first() =~= s);
        assert(rest.drop_first() =~= Seq::<Seq<char>>::empty());
        assert(split_on_slash(s) =~= seq![s]);
    }
}

/// Splitting at the first separator: a separator-free prefix becomes the
/// first component and the rest splits on its own.
pub proof fn lemma_split_concat(a: Seq<char>, b: Seq<char>)
    requires
        has_no_slash(a),
    ensures
        split_on_slash(a + seq!['/'] + b) == seq![a] + split_on_slash(b),
    decreases a.len(),
{
    let s = a + seq!['/'] + b;
    if a.len() == 0 {
        assert(s[0] == '/');
        assert(s.drop_first() =~= b);
        assert(a =~= Seq::<char>::empty());
    } else {
        assert(s[0] == a[0]);
        assert(s[0] != '/');
        assert(s.drop_first() =~= a.drop_first() + seq!['/'] + b);
        assert(has_no_slash(a.drop_first()));
        lemma_split_concat(a.drop_first(), b);
        let rest = split_on_slash(s.drop_first());
        assert(rest == seq![a.drop_first()] + split_on_slash(b));
        lemma_split_len(b);
        assert(rest[0] == a.drop_first());
        assert(seq![s[0]] + a.drop_first() =~= a);
        assert(rest.drop_first() =~= split_on_slash(b));
        assert(split_on_slash(s) =~= seq![a] + split_on_slash(b));
    }
}

/// Joining after appending one more component.
pub proof fn lemma_join_push(parts: Seq<Seq<char>>, tail: Seq<char>)
    requires
        parts.len() >= 1,
    ensures
        join_with_slash(parts.push(tail)) == join_with_slash(parts) + seq!['/'] + tail,
    decreases parts.len(),
{
    if parts.len() == 1 {
        let two = parts.push(tail);
        assert(two.drop_first() =~= seq![tail]);
        assert(join_with_slash(two.drop_first()) == tail);
        assert(two[0] == parts[0]);
    } else {
        lemma_join_push(parts.drop_first(), tail);
        assert(parts.push(tail).drop_first() =~= parts.drop_first().push(tail));
        assert(parts.push(tail)[0] == parts[0]);
    }
}

/// Joining distributes over concatenation, with one separator between the
/// two halves.
pub proof fn lemma_join_concat(a: Seq<Seq<char>>, b: Seq<Seq<char>>)
    requires
        a.len() > 0,
        b.len() > 0,
    ensures
        join_with_slash(a + b) == join_with_slash(a) + seq!['/'] + join_with_slash(b),
    decreases a.len(),
{
    if a.len() == 1 {
        assert((a + b)[0] == a[0]);
        assert((a + b).drop_first() =~= b);
        assert(join_with_slash(a) == a[0]);
    } else {
        lemma_join_concat(a.drop_first(), b);
        assert((a + b)[0] == a[0]);
        assert((a + b).drop_first() =~= a.drop_first() + b);
        assert(a[0] + seq!['/'] + (join_with_slash(a.drop_first()) + seq!['/'] + join_with_slash(
            b,
        )) =~= (a[0] + seq!['/'] + join_with_slash(a.drop_first())) + seq!['/'] + join_with_slash(
            b,
        ));
    }
}

/// Splitting inverts joining, for at least one separator-free component.
pub proof fn lemma_split_join_inverse(parts: Seq<Seq<char>>)
    requires
        parts.len() >= 1,
        forall|k: int| 0 <= k < parts.len() ==> has_no_slash(#[trigger] parts[k]),
    ensures
        split_on_slash(join_with_slash(parts)) == parts,
    decreases parts.len(),
{
    if parts.len() == 1 {
        lemma_split_without_slash(parts[0]);
        assert(seq![parts[0]] =~= parts);
    } else {
        lemma_split_join_inverse(parts.drop_first());
        lemma_split_concat(parts[0], join_with_slash(parts.drop_first()));
        assert(seq![parts[0]] + parts.drop_first() =~= parts);
    }
}

/// Executable check for the trimmed character set.
pub fn is_space_char(c: char) -> (space: bool)
    ensures
        space == is_space(c),
{
    let n = c as u32;
    (9 <= n && n <= 13) || n == 32 || n == 133 || n == 160 || n == 0x1680 || (0x2000 <= n && n
        <= 0x200a) || n == 0x2028 || n == 0x2029 || n == 0x202f || n == 0x205f || n == 0x3000
}

/// Trims leading and trailing whitespace from a component, exactly as
/// `trim_text` describes.
pub fn trim_component(s: &str) -> (trimmed: &str)
    ensures
        trimmed@ == trim_text(s@),
{
    let n = s.unicode_len();
    let mut i: usize = 0;
    while i < n && is_space_char(s.get_char(i))
        invariant
            0 <= i <= n,
            n == s@.len(),
            forall|k: int| 0 <= k < i ==> is_space(s@[k]),
        decreases n - i,
    {
        i = i + 1;
    }
    proof {
        lemma_trim_front_at(s@, i as int);
    }
    if i == n {
        proof {
            assert(s@.skip(i as int) =~= Seq::<char>::empty());
            assert(trim_back(Seq::<char>::empty()) == Seq::<char>::empty());
            assert(s@.subrange(i as int, i as int) =~= Seq::<char>::empty());
        }
        return s.substring_char(i, i);
    }
    let mut j: usize = n;
    while j > i && is_space_char(s.get_char(j - 1))
        invariant
            i <= j <= n,
            i < n,
            n == s@.len(),
            forall|k: int| j <= k < n ==> is_space(s@[k]),
        decreases j,
    {
        j = j - 1;
    }
    proof {
        let t = s@.skip(i as int);
        if j == i {
            assert(!is_space(s@[i as int]));
            assert(is_space(s@[j as int]));
        }
        assert(j > i);
        assert(t.len() == n - i);
        assert(forall|k: int| j - i <= k < t.len() ==> is_space(#[trigger] t[k]));
        assert(t[j - i - 1] == s@[j - 1]);
        lemma_trim_back_at(t, j - i);
        assert(t.take(j - i) =~= s@.subrange(i as int, j as int));
    }
    s.substring_char(i, j)
}

/// Renders component texts as a path: `/` followed by the components joined
/// with `/`, exactly as `rendered_path` describes.
pub(crate) fn render_path_texts(parts: &Vec<String>) -> (path: String)
    ensures
        path@ == rendered_path(parts@.map_values(|t: String| t@)),
{
    let ghost viewfn = |t: String| t@;
    let ghost texts = parts@.map_values(viewfn);
    let n = parts.len();
    let mut path = String::from_str("/");
    let mut k: usize = 0;
    proof {
        reveal_strlit("/");
        assert(texts.take(0) =~= Seq::<Seq<char>>::empty());
        assert(path@ =~= rendered_path(texts.take(0)));
    }
    while k < n
        invariant
            0 <= k <= n,
            n == parts@.len(),
            texts == parts@.map_values(viewfn),
            viewfn == (|t: String| t@),
            path@ == rendered_path(texts.take(k as int)),
        decreases n - k,
    {
        if k > 0 {
            path.append("/");
            proof {
                reveal_strlit("/");
                assert(("/")@ =~= seq!['/']);
            }
        }
        let part = &parts[k];
        path.append(part.as_str());
        proof {
            assert(texts[k as int] == part@);
            if k == 0 {
                assert(texts.take(1) =~= seq![texts[0]]);
                assert(join_with_slash(seq![texts[0]]) == texts[0]);
                assert(path@ =~= rendered_path(texts.take(1)));
            } else {
                lemma_join_push(texts.take(k as int), texts[k as int]);
                assert(texts.take(k as int + 1) =~= texts.take(k as int).push(texts[k as int]));
                assert(path@ =~= rendered_path(texts.take(k as int + 1)));
            }
        }
        k = k + 1;
    }
    proof {
        assert(texts.take(n as int) =~= texts);
    }
    path
}

} // verus!
