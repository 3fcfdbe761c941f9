//! Board YAML generation for the board manager: compact JSON text, YAML
//! scalars and block-style values, and the three board files rendered from
//! a hardware assembly.
use vstd::prelude::*;
use crate::codegen::{builtin_device_types, resolve_device_type_yaml};
use crate::export::{number_json_text, number_json_text_exec};
use crate::json::{Json, JsonV, elems_view, entries_view};
use crate::text::{owned, push_str, push_char, chars_of, has_char, trim_start_char, lemma_trim_start_at};

verus! {

// ── Compact JSON ──────────────────────────────────────────────────────────────

/// A lower-case hexadecimal digit.
pub open spec fn hex_lower(d: nat) -> char {
    if d < 10 {
        ((d + 48) as u8) as char
    } else {
        ((d + 87) as u8) as char
    }
}

/// A character as it appears inside a JSON string: `"` and `\` and the
/// control characters escaped (`\b \t \n \f \r`, else `\u00XX`).
pub open spec fn escape_char(c: char) -> Seq<char> {
    if c == '"' {
        seq!['\\', '"']
    } else if c == '\\' {
        seq!['\\', '\\']
    } else if c == '\x08' {
        seq!['\\', 'b']
    } else if c == '\t' {
        seq!['\\', 't']
    } else if c == '\n' {
        seq!['\\', 'n']
    } else if c == '\x0C' {
        seq!['\\', 'f']
    } else if c == '\r' {
        seq!['\\', 'r']
    } else if (c as u32) < 0x20 {
        seq!['\\', 'u', '0', '0', hex_lower((c as u32 / 16) as nat), hex_lower((c as u32 % 16) as nat)]
    } else {
        seq![c]
    }
}

/// The escaped characters of the first `n` characters of `s`.
pub open spec fn escape_str(s: Seq<char>, n: int) -> Seq<char>
    decreases n,
{
    if n <= 0 || n > s.len() {
        Seq::empty()
    } else {
        escape_str(s, n - 1) + escape_char(s[n - 1])
    }
}

/// A JSON string literal.
pub open spec fn quoted(s: Seq<char>) -> Seq<char> {
    seq!['"'] + escape_str(s, s.len() as int) + seq!['"']
}

/// A value as compact JSON text (no spaces; object keys in entry order).
pub open spec fn json_compact_spec(v: JsonV) -> Seq<char>
    decreases v, 0int,
{
    match v {
        JsonV::Null => "null"@,
        JsonV::Bool(b) => if b {
            "true"@
        } else {
            "false"@
        },
        JsonV::Number(n) => number_json_text(n),
        JsonV::Str(s) => quoted(s),
        JsonV::Array(items) => seq!['['] + compact_items(items, items.len() as int) + seq![']'],
        JsonV::Object(m) => seq!['{'] + compact_entries(m, m.len() as int) + seq!['}'],
    }
}

/// The compact texts of the first `n` items, separated by commas.
pub open spec fn compact_items(items: Seq<JsonV>, n: int) -> Seq<char>
    decreases items, n,
{
    if n <= 0 || n > items.len() {
        Seq::empty()
    } else if n == 1 {
        json_compact_spec(items[0])
    } else {
        compact_items(items, n - 1) + seq![','] + json_compact_spec(items[n - 1])
    }
}

/// The compact `"key":value` texts of the first `n` entries, separated by commas.
pub open spec fn compact_entries(m: Seq<(Seq<char>, JsonV)>, n: int) -> Seq<char>
    decreases m, n,
{
    if n <= 0 || n > m.len() {
        Seq::empty()
    } else if n == 1 {
        quoted(m[0].0) + seq![':'] + json_compact_spec(m[0].1)
    } else {
        compact_entries(m, n - 1) + seq![','] + quoted(m[n - 1].0) + seq![':'] + json_compact_spec(m[n - 1].1)
    }
}

fn hex_lower_exec(d: u32) -> (c: char)
    requires
        d < 16,
    ensures
        c == hex_lower(d as nat),
{
    if d < 10 {
        ((d + 48) as u8) as char
    } else {
        ((d + 87) as u8) as char
    }
}

fn push_quoted(out: &mut String, s: &str)
    ensures
        final(out)@ == old(out)@ + quoted(s@),
{
    let cs = chars_of(s);
    push_char(out, '"');
    let ghost start = out@;
    let mut i: usize = 0;
    while i < cs.len()
        invariant
            i <= cs@.len(),
            cs@ == s@,
            out@ == start + escape_str(s@, i as int),
        decreases cs@.len() - i,
    {
        let c = cs[i];
        let ghost before = out@;
        if c == '"' {
            push_char(out, '\\');
            push_char(out, '"');
        } else if c == '\\' {
            push_char(out, '\\');
            push_char(out, '\\');
        } else if c == '\x08' {
            push_char(out, '\\');
            push_char(out, 'b');
        } else if c == '\t' {
            push_char(out, '\\');
            push_char(out, 't');
        } else if c == '\n' {
            push_char(out, '\\');
            push_char(out, 'n');
        } else if c == '\x0C' {
            push_char(out, '\\');
            push_char(out, 'f');
        } else if c == '\r' {
            push_char(out, '\\');
            push_char(out, 'r');
        } else if (c as u32) < 0x20 {
            push_char(out, '\\');
            push_char(out, 'u');
            push_char(out, '0');
            push_char(out, '0');
            push_char(out, hex_lower_exec(c as u32 / 16));
            push_char(out, hex_lower_exec(c as u32 % 16));
        } else {
            push_char(out, c);
        }
        proof {
            assert(out@ =~= before + escape_char(s@[i as int]));
            assert(out@ =~= start + escape_str(s@, i + 1));
        }
        i = i + 1;
    }
    push_char(out, '"');
    proof {
        assert(out@ =~= old(out)@ + quoted(s@));
    }
}

/// A value as compact JSON text.
pub fn json_compact(v: &Json) -> (r: String)
    ensures
        r@ == json_compact_spec(v@),
    decreases v,
{
    match v {
        Json::Null => owned("null"),
        Json::Bool(b) => if *b {
            owned("true")
        } else {
            owned("false")
        },
        Json::Number(n) => number_json_text_exec(n),
        Json::Str(s) => {
            let mut out = String::new();
            push_quoted(&mut out, s.as_str());
            proof {
                assert(out@ =~= quoted(s@));
            }
            out
        },
        Json::Array(items) => {
            let ghost iv = elems_view(items@);
            let mut out = String::new();
            push_char(&mut out, '[');
            proof {
                assert(out@ =~= seq!['['] + compact_items(iv, 0));
            }
            let mut i: usize = 0;
            while i < items.len()
                invariant
                    *v == Json::Array(*items),
                    iv == elems_view(items@),
                    i <= items@.len(),
                    out@ == seq!['['] + compact_items(iv, i as int),
                decreases items@.len() - i,
            {
                proof {
                    broadcast use vstd::std_specs::vec::axiom_vec_index_decreases;
                    assert(decreases_to!(*v => (*v)->Array_0));
                    assert(decreases_to!(*items => items[i as int]));
                    assert(decreases_to!(*v => items[i as int]));
                }
                if i > 0 {
                    push_char(&mut out, ',');
                }
                let t = json_compact(&items[i]);
                push_str(&mut out, t.as_str());
                proof {
                    assert(iv[i as int] == items@[i as int]@);
                    if i == 0 {
                        assert(out@ =~= seq!['['] + compact_items(iv, 1));
                    } else {
                        assert(out@ =~= seq!['['] + compact_items(iv, i + 1));
                    }
                }
                i = i + 1;
            }
            push_char(&mut out, ']');
            proof {
                assert(v@ == JsonV::Array(iv));
                assert(out@ =~= json_compact_spec(v@));
            }
            out
        },
        Json::Object(m) => {
            let ghost mv = entries_view(m@);
            let mut out = String::new();
            push_char(&mut out, '{');
            proof {
                assert(out@ =~= seq!['{'] + compact_entries(mv, 0));
            }
            let mut i: usize = 0;
            while i < m.len()
                invariant
                    *v == Json::Object(*m),
                    mv == entries_view(m@),
                    i <= m@.len(),
                    out@ == seq!['{'] + compact_entries(mv, i as int),
                decreases m@.len() - i,
            {
                proof {
                    broadcast use vstd::std_specs::vec::axiom_vec_index_decreases;
                    assert(decreases_to!(*v => (*v)->Object_0));
                    assert(decreases_to!(*m => m[i as int]));
                    assert(decreases_to!(m[i as int] => m[i as int].1));
                    assert(decreases_to!(*v => m[i as int].1));
                }
                if i > 0 {
                    push_char(&mut out, ',');
                }
                push_quoted(&mut out, m[i].0.as_str());
                push_char(&mut out, ':');
                let t = json_compact(&m[i].1);
                push_str(&mut out, t.as_str());
                proof {
                    assert(mv[i as int] == (m@[i as int].0@, m@[i as int].1@));
                    if i == 0 {
                        assert(out@ =~= seq!['{'] + compact_entries(mv, 1));
                    } else {
                        assert(out@ =~= seq!['{'] + compact_entries(mv, i + 1));
                    }
                }
                i = i + 1;
            }
            push_char(&mut out, '}');
            proof {
                assert(v@ == JsonV::Object(mv));
                assert(out@ =~= json_compact_spec(v@));
            }
            out
        },
    }
}

// ── YAML values ───────────────────────────────────────────────────────────────

/// A value as a YAML scalar: booleans and numbers as JSON writes them,
/// strings quoted when they hold a space, `:` or `#`, `null`, and compact
/// JSON for arrays and objects.
pub open spec fn board_scalar_spec(v: JsonV) -> Seq<char> {
    match v {
        JsonV::Bool(b) => if b {
            "true"@
        } else {
            "false"@
        },
        JsonV::Number(n) => number_json_text(n),
        JsonV::Str(s) => if s.contains(' ') || s.contains(':') || s.contains('#') {
            seq!['"'] + s + seq!['"']
        } else {
            s
        },
        JsonV::Null => "null"@,
        _ => json_compact_spec(v),
    }
}

/// Render a value as a YAML scalar.
pub fn yaml_scalar(v: &Json) -> (r: String)
    ensures
        r@ == board_scalar_spec(v@),
{
    match v {
        Json::Bool(b) => if *b {
            owned("true")
        } else {
            owned("false")
        },
        Json::Number(n) => number_json_text_exec(n),
        Json::Str(s) => {
            let cs = chars_of(s.as_str());
            if has_char(&cs, ' ') || has_char(&cs, ':') || has_char(&cs, '#') {
                let mut out = String::new();
                push_char(&mut out, '"');
                push_str(&mut out, s.as_str());
                push_char(&mut out, '"');
                proof {
                    assert(out@ =~= seq!['"'] + s@ + seq!['"']);
                }
                out
            } else {
                s.clone()
            }
        },
        Json::Null => owned("null"),
        _ => json_compact(v),
    }
}

/// Nesting depth of arrays and objects.
pub open spec fn json_depth(v: JsonV) -> nat
    decreases v, 0int,
{
    match v {
        JsonV::Array(a) => 1 + items_depth(a, a.len() as int),
        JsonV::Object(m) => 1 + entries_depth(m, m.len() as int),
        _ => 0,
    }
}

/// The greatest depth among the first `n` items.
pub open spec fn items_depth(a: Seq<JsonV>, n: int) -> nat
    decreases a, n,
{
    if n <= 0 || n > a.len() {
        0
    } else {
        let d = json_depth(a[n - 1]);
        let p = items_depth(a, n - 1);
        if d > p {
            d
        } else {
            p
        }
    }
}

/// The greatest depth among the values of the first `n` entries.
pub open spec fn entries_depth(m: Seq<(Seq<char>, JsonV)>, n: int) -> nat
    decreases m, n,
{
    if n <= 0 || n > m.len() {
        0
    } else {
        let d = json_depth(m[n - 1].1);
        let p = entries_depth(m, n - 1);
        if d > p {
            d
        } else {
            p
        }
    }
}

/// Each of the first `n` items is no deeper than `items_depth`.
pub proof fn lemma_items_depth(a: Seq<JsonV>, n: int, i: int)
    requires
        0 <= i < n <= a.len(),
    ensures
        json_depth(a[i]) <= items_depth(a, n),
    decreases n,
{
    if i < n - 1 {
        lemma_items_depth(a, n - 1, i);
    }
}

/// Each of the first `n` entry values is no deeper than `entries_depth`.
pub proof fn lemma_entries_depth(m: Seq<(Seq<char>, JsonV)>, n: int, i: int)
    requires
        0 <= i < n <= m.len(),
    ensures
        json_depth(m[i].1) <= entries_depth(m, n),
    decreases n,
{
    if i < n - 1 {
        lemma_entries_depth(m, n - 1, i);
    }
}

/// Some of the first `n` items is as deep as `items_depth` (when that is not 0).
pub proof fn lemma_items_depth_attained(a: Seq<JsonV>, n: int)
    requires
        0 <= n <= a.len(),
    ensures
        items_depth(a, n) == 0 || exists|i: int| 0 <= i < n && json_depth(#[trigger] a[i]) == items_depth(a, n),
    decreases n,
{
    if n > 0 {
        lemma_items_depth_attained(a, n - 1);
        if json_depth(a[n - 1]) <= items_depth(a, n - 1) && items_depth(a, n - 1) != 0 {
            let i = choose|i: int| 0 <= i < n - 1 && json_depth(#[trigger] a[i]) == items_depth(a, n - 1);
            assert(json_depth(a[i]) == items_depth(a, n));
        }
    }
}

/// Some of the first `n` entry values is as deep as `entries_depth` (when that is not 0).
pub proof fn lemma_entries_depth_attained(m: Seq<(Seq<char>, JsonV)>, n: int)
    requires
        0 <= n <= m.len(),
    ensures
        entries_depth(m, n) == 0 || exists|i: int| 0 <= i < n && json_depth(#[trigger] m[i].1) == entries_depth(m, n),
    decreases n,
{
    if n > 0 {
        lemma_entries_depth_attained(m, n - 1);
        if json_depth(m[n - 1].1) <= entries_depth(m, n - 1) && entries_depth(m, n - 1) != 0 {
            let i = choose|i: int| 0 <= i < n - 1 && json_depth(#[trigger] m[i].1) == entries_depth(m, n - 1);
            assert(json_depth(m[i].1) == entries_depth(m, n));
        }
    }
}

/// Whether a value nests at most `k` levels of arrays and objects.
pub fn depth_at_most(v: &Json, k: usize) -> (r: bool)
    ensures
        r == (json_depth(v@) <= k),
    decreases v,
{
    match v {
        Json::Array(a) => {
            let ghost av = elems_view(a@);
            proof {
                assert(v@ == JsonV::Array(av));
            }
            if k == 0 {
                return false;
            }
            let mut i: usize = 0;
            while i < a.len()
                invariant
                    *v == Json::Array(*a),
                    av == elems_view(a@),
                    0 < k,
                    i <= a@.len(),
                    forall|j: int| 0 <= j < i ==> json_depth(#[trigger] av[j]) <= k - 1,
                decreases a@.len() - i,
            {
                proof {
                    broadcast use vstd::std_specs::vec::axiom_vec_index_decreases;
                    assert(decreases_to!(*v => (*v)->Array_0));
                    assert(decreases_to!(*a => a[i as int]));
                    assert(decreases_to!(*v => a[i as int]));
                    assert(av[i as int] == a@[i as int]@);
                }
                if !depth_at_most(&a[i], k - 1) {
                    proof {
                        lemma_items_depth(av, av.len() as int, i as int);
                    }
                    return false;
                }
                i = i + 1;
            }
            proof {
                lemma_items_depth_attained(av, av.len() as int);
            }
            true
        },
        Json::Object(m) => {
            let ghost mv = entries_view(m@);
            proof {
                assert(v@ == JsonV::Object(mv));
            }
            if k == 0 {
                return false;
            }
            let mut i: usize = 0;
            while i < m.len()
                invariant
                    *v == Json::Object(*m),
                    mv == entries_view(m@),
                    0 < k,
                    i <= m@.len(),
                    forall|j: int| 0 <= j < i ==> json_depth(#[trigger] mv[j].1) <= k - 1,
                decreases m@.len() - i,
            {
                proof {
                    broadcast use vstd::std_specs::vec::axiom_vec_index_decreases;
                    assert(decreases_to!(*v => (*v)->Object_0));
                    assert(decreases_to!(*m => m[i as int]));
                    assert(decreases_to!(m[i as int] => m[i as int].1));
                    assert(decreases_to!(*v => m[i as int].1));
                    assert(mv[i as int] == (m@[i as int].0@, m@[i as int].1@));
                }
                if !depth_at_most(&m[i].1, k - 1) {
                    proof {
                        lemma_entries_depth(mv, mv.len() as int, i as int);
                    }
                    return false;
                }
                i = i + 1;
            }
            proof {
                lemma_entries_depth_attained(mv, mv.len() as int);
            }
            true
        },
        _ => true,
    }
}

/// `n` spaces.
pub open spec fn spaces(n: nat) -> Seq<char> {
    Seq::new(n, |i: int| ' ')
}

/// The value is an array or an object.
pub open spec fn is_container(v: JsonV) -> bool {
    v is Array || v is Object
}

/// What follows `key:` for a value: a block for a container, else a space and the scalar.
pub open spec fn after_key(v: JsonV, ind: nat) -> Seq<char>
    decreases v, 1int,
{
    if is_container(v) {
        render_spec(v, ind)
    } else {
        seq![' '] + board_scalar_spec(v)
    }
}

/// A value in block-style YAML at indentation `ind`: empty containers in
/// flow style (` {}`, ` []`), a non-empty map as one line per key, a
/// non-empty array as one `- ` line per item, and scalars inline.
pub open spec fn render_spec(v: JsonV, ind: nat) -> Seq<char>
    decreases v, 0int,
{
    match v {
        JsonV::Object(m) => if m.len() == 0 {
            " {}"@
        } else {
            map_lines(m, ind, m.len() as int)
        },
        JsonV::Array(a) => if a.len() == 0 {
            " []"@
        } else {
            arr_lines(a, ind, a.len() as int)
        },
        _ => board_scalar_spec(v),
    }
}

/// The lines of the first `n` map entries at indentation `ind`.
pub open spec fn map_lines(m: Seq<(Seq<char>, JsonV)>, ind: nat, n: int) -> Seq<char>
    decreases m, n,
{
    if n <= 0 || n > m.len() {
        Seq::empty()
    } else {
        map_lines(m, ind, n - 1) + seq!['\n'] + spaces(ind) + m[n - 1].0 + seq![':'] + after_key(m[n - 1].1, ind + 2)
    }
}

/// The lines of the first `n` array items at indentation `ind`.
pub open spec fn arr_lines(a: Seq<JsonV>, ind: nat, n: int) -> Seq<char>
    decreases a, n,
{
    if n <= 0 || n > a.len() {
        Seq::empty()
    } else {
        arr_lines(a, ind, n - 1) + seq!['\n'] + spaces(ind) + seq!['-', ' '] + item_text(a[n - 1], ind)
    }
}

/// An array item after its dash: a non-empty map with its first key on the
/// dash line and the others at `ind + 2`; another container one level
/// deeper without its leading line break; a scalar inline.
pub open spec fn item_text(item: JsonV, ind: nat) -> Seq<char>
    decreases item, 2int,
{
    match item {
        JsonV::Object(m) => if m.len() > 0 {
            item_map_lines(m, ind, m.len() as int)
        } else {
            trim_start_char(render_spec(item, ind + 2), '\n')
        },
        JsonV::Array(_) => trim_start_char(render_spec(item, ind + 2), '\n'),
        _ => board_scalar_spec(item),
    }
}

/// The first `n` entries of a map that is an array item.
pub open spec fn item_map_lines(m: Seq<(Seq<char>, JsonV)>, ind: nat, n: int) -> Seq<char>
    decreases m, n,
{
    if n <= 0 || n > m.len() {
        Seq::empty()
    } else if n == 1 {
        m[0].0 + seq![':'] + after_key(m[0].1, ind + 4)
    } else {
        item_map_lines(m, ind, n - 1) + seq!['\n'] + spaces(ind + 2) + m[n - 1].0 + seq![':'] + after_key(
            m[n - 1].1,
            ind + 4,
        )
    }
}

fn push_spaces(out: &mut String, n: usize)
    ensures
        final(out)@ == old(out)@ + spaces(n as nat),
{
    let mut i: usize = 0;
    while i < n
        invariant
            i <= n,
            out@ == old(out)@ + spaces(i as nat),
        decreases n - i,
    {
        push_char(out, ' ');
        i = i + 1;
        proof {
            assert(out@ =~= old(out)@ + spaces(i as nat));
        }
    }
}

fn is_container_exec(v: &Json) -> (r: bool)
    ensures
        r == is_container(v@),
{
    match v {
        Json::Array(_) => true,
        Json::Object(_) => true,
        _ => false,
    }
}

fn push_after_key(out: &mut String, v: &Json, ind: usize)
    requires
        ind + 4 * json_depth(v@) <= usize::MAX,
    ensures
        final(out)@ == old(out)@ + after_key(v@, ind as nat),
    decreases v, 1int,
{
    if is_container_exec(v) {
        let t = render_yaml_value(v, ind);
        push_str(out, t.as_str());
    } else {
        push_char(out, ' ');
        let t = yaml_scalar(v);
        push_str(out, t.as_str());
        proof {
            assert(out@ =~= old(out)@ + after_key(v@, ind as nat));
        }
    }
}

fn strip_leading_newlines(s: String) -> (r: String)
    ensures
        r@ == trim_start_char(s@, '\n'),
{
    let cs = chars_of(s.as_str());
    let mut k: usize = 0;
    while k < cs.len() && cs[k] == '\n'
        invariant
            k <= cs@.len(),
            cs@ == s@,
            forall|j: int| 0 <= j < k ==> cs@[j] == '\n',
        decreases cs@.len() - k,
    {
        k = k + 1;
    }
    proof {
        lemma_trim_start_at(s@, '\n', k as int);
    }
    crate::text::string_of(&slice_chars(&cs, k))
}

fn slice_chars(cs: &Vec<char>, k: usize) -> (r: Vec<char>)
    requires
        k <= cs@.len(),
    ensures
        r@ == cs@.subrange(k as int, cs@.len() as int),
{
    crate::text::slice_range(cs.as_slice(), k, cs.len())
}

/// Render a value into block-style YAML at indentation `indent`; maps and
/// arrays start with a line break so the caller can write `key:` before them.
pub fn render_yaml_value(v: &Json, indent: usize) -> (r: String)
    requires
        indent + 4 * json_depth(v@) <= usize::MAX,
    ensures
        r@ == render_spec(v@, indent as nat),
    decreases v, 0int,
{
    match v {
        Json::Object(m) => {
            let ghost mv = entries_view(m@);
            proof {
                assert(v@ == JsonV::Object(mv));
            }
            if m.len() == 0 {
                return owned(" {}");
            }
            let mut out = String::new();
            let mut i: usize = 0;
            proof {
                assert(out@ =~= map_lines(mv, indent as nat, 0));
            }
            while i < m.len()
                invariant
                    *v == Json::Object(*m),
                    mv == entries_view(m@),
                    v@ == JsonV::Object(mv),
                    indent + 4 * json_depth(v@) <= usize::MAX,
                    i <= m@.len(),
                    out@ == map_lines(mv, indent as nat, i as int),
                decreases m@.len() - i,
            {
                proof {
                    broadcast use vstd::std_specs::vec::axiom_vec_index_decreases;
                    assert(decreases_to!(*v => (*v)->Object_0));
                    assert(decreases_to!(*m => m[i as int]));
                    assert(decreases_to!(m[i as int] => m[i as int].1));
                    assert(decreases_to!(*v => m[i as int].1));
                    assert(mv[i as int] == (m@[i as int].0@, m@[i as int].1@));
                    lemma_entries_depth(mv, mv.len() as int, i as int);
                }
                push_char(&mut out, '\n');
                push_spaces(&mut out, indent);
                push_str(&mut out, m[i].0.as_str());
                push_char(&mut out, ':');
                push_after_key(&mut out, &m[i].1, indent + 2);
                proof {
                    assert(out@ =~= map_lines(mv, indent as nat, i + 1));
                }
                i = i + 1;
            }
            out
        },
        Json::Array(a) => {
            let ghost av = elems_view(a@);
            proof {
                assert(v@ == JsonV::Array(av));
            }
            if a.len() == 0 {
                return owned(" []");
            }
            let mut out = String::new();
            let mut i: usize = 0;
            proof {
                assert(out@ =~= arr_lines(av, indent as nat, 0));
            }
            while i < a.len()
                invariant
                    *v == Json::Array(*a),
                    av == elems_view(a@),
                    v@ == JsonV::Array(av),
                    indent + 4 * json_depth(v@) <= usize::MAX,
                    i <= a@.len(),
                    out@ == arr_lines(av, indent as nat, i as int),
                decreases a@.len() - i,
            {
                proof {
                    broadcast use vstd::std_specs::vec::axiom_vec_index_decreases;
                    assert(decreases_to!(*v => (*v)->Array_0));
                    assert(decreases_to!(*a => a[i as int]));
                    assert(decreases_to!(*v => a[i as int]));
                    assert(av[i as int] == a@[i as int]@);
                    lemma_items_depth(av, av.len() as int, i as int);
                }
                push_char(&mut out, '\n');
                push_spaces(&mut out, indent);
                push_char(&mut out, '-');
                push_char(&mut out, ' ');
                push_item(&mut out, &a[i], indent);
                proof {
                    assert(out@ =~= arr_lines(av, indent as nat, i + 1));
                }
                i = i + 1;
            }
            out
        },
        _ => yaml_scalar(v),
    }
}

fn push_item(out: &mut String, item: &Json, ind: usize)
    requires
        ind + 4 * json_depth(item@) + 4 <= usize::MAX,
    ensures
        final(out)@ == old(out)@ + item_text(item@, ind as nat),
    decreases item, 2int,
{
    match item {
        Json::Object(m) => {
            let ghost mv = entries_view(m@);
            proof {
                assert(item@ == JsonV::Object(mv));
            }
            if m.len() > 0 {
                let ghost start = out@;
                let mut i: usize = 0;
                while i < m.len()
                    invariant
                        *item == Json::Object(*m),
                        mv == entries_view(m@),
                        item@ == JsonV::Object(mv),
                        ind + 4 * json_depth(item@) + 4 <= usize::MAX,
                        i <= m@.len(),
                        out@ == start + item_map_lines(mv, ind as nat, i as int),
                    decreases m@.len() - i,
                {
                    proof {
                        broadcast use vstd::std_specs::vec::axiom_vec_index_decreases;
                        assert(decreases_to!(*item => (*item)->Object_0));
                        assert(decreases_to!(*m => m[i as int]));
                        assert(decreases_to!(m[i as int] => m[i as int].1));
                        assert(decreases_to!(*item => m[i as int].1));
                        assert(mv[i as int] == (m@[i as int].0@, m@[i as int].1@));
                        lemma_entries_depth(mv, mv.len() as int, i as int);
                    }
                    if i > 0 {
                        push_char(out, '\n');
                        push_spaces(out, ind + 2);
                    }
                    push_str(out, m[i].0.as_str());
                    push_char(out, ':');
                    push_after_key(out, &m[i].1, ind + 4);
                    proof {
                        if i == 0 {
                            assert(out@ =~= start + item_map_lines(mv, ind as nat, 1));
                        } else {
                            assert(out@ =~= start + item_map_lines(mv, ind as nat, i + 1));
                        }
                    }
                    i = i + 1;
                }
            } else {
                let t = strip_leading_newlines(render_yaml_value(item, ind + 2));
                push_str(out, t.as_str());
            }
        },
        Json::Array(_) => {
            let t = strip_leading_newlines(render_yaml_value(item, ind + 2));
            push_str(out, t.as_str());
        },
        _ => {
            let t = yaml_scalar(item);
            push_str(out, t.as_str());
        },
    }
}


// ── Hardware assemblies ───────────────────────────────────────────────────────

/// A peripheral of an assembly: its name, type, role and configuration
/// entries in order.
pub struct BoardPeripheral {
    pub name: String,
    pub periph_type: String,
    pub role: String,
    pub config: Vec<(String, Json)>,
}

/// A device of an assembly: its name, logical type, the peripherals it
/// uses, its configuration entries and the devices it depends on.
pub struct BoardDevice {
    pub name: String,
    pub device_type: String,
    pub peripherals: Vec<String>,
    pub config: Vec<(String, Json)>,
    pub dependencies: Vec<String>,
}

/// A hardware assembly as the board files need it: identifier, label, the
/// IDF chip target, description, peripherals and devices.
pub struct HardwareAssembly {
    pub id: String,
    pub label: String,
    pub idf_target: String,
    pub description: String,
    pub peripherals: Vec<BoardPeripheral>,
    pub devices: Vec<BoardDevice>,
}

/// Every configuration value can be rendered at indentation 8.
pub open spec fn config_fits(c: Seq<(Seq<char>, JsonV)>) -> bool {
    forall|i: int| 0 <= i < c.len() ==> 8 + 4 * json_depth(#[trigger] c[i].1) <= usize::MAX
}

/// Every configuration value of the assembly can be rendered.
pub open spec fn assembly_fits(a: HardwareAssembly) -> bool {
    &&& forall|i: int| 0 <= i < a.peripherals@.len() ==> config_fits(entries_view(#[trigger] a.peripherals@[i].config@))
    &&& forall|i: int| 0 <= i < a.devices@.len() ==> config_fits(entries_view(#[trigger] a.devices@[i].config@))
}

/// The greatest depth a configuration value may have.
pub open spec fn max_config_depth() -> int {
    (usize::MAX - 8) / 4
}

proof fn lemma_depth_bound(d: nat)
    ensures
        (8 + 4 * d <= usize::MAX) == (d <= max_config_depth()),
{
    let k = max_config_depth();
    assert(usize::MAX - 8 < 4 * (k + 1)) by (nonlinear_arith)
        requires
            k == (usize::MAX - 8) / 4,
            usize::MAX >= 8,
    ;
    if d <= k {
        assert(4 * d <= 4 * k) by (nonlinear_arith)
            requires
                d <= k,
        ;
        assert(4 * k <= usize::MAX - 8) by (nonlinear_arith)
            requires
                k == (usize::MAX - 8) / 4,
                usize::MAX >= 8,
        ;
    } else {
        assert(4 * d >= 4 * (k + 1)) by (nonlinear_arith)
            requires
                d >= k + 1,
        ;
    }
}

/// Whether every configuration value can be rendered.
pub fn config_fits_exec(c: &Vec<(String, Json)>) -> (r: bool)
    ensures
        r == config_fits(entries_view(c@)),
{
    let ghost cv = entries_view(c@);
    let k: usize = (usize::MAX - 8) / 4;
    let mut i: usize = 0;
    while i < c.len()
        invariant
            i <= c@.len(),
            cv == entries_view(c@),
            k == max_config_depth(),
            forall|j: int| 0 <= j < i ==> 8 + 4 * json_depth(#[trigger] cv[j].1) <= usize::MAX,
        decreases c@.len() - i,
    {
        proof {
            assert(cv[i as int] == (c@[i as int].0@, c@[i as int].1@));
            lemma_depth_bound(json_depth(cv[i as int].1));
        }
        if !depth_at_most(&c[i].1, k) {
            return false;
        }
        i = i + 1;
    }
    true
}

/// Whether every configuration value of an assembly can be rendered.
pub fn assembly_fits_exec(a: &HardwareAssembly) -> (r: bool)
    ensures
        r == assembly_fits(*a),
{
    let mut i: usize = 0;
    while i < a.peripherals.len()
        invariant
            i <= a.peripherals@.len(),
            forall|j: int| 0 <= j < i ==> config_fits(entries_view(#[trigger] a.peripherals@[j].config@)),
        decreases a.peripherals@.len() - i,
    {
        if !config_fits_exec(&a.peripherals[i].config) {
            return false;
        }
        i = i + 1;
    }
    let mut i: usize = 0;
    while i < a.devices.len()
        invariant
            i <= a.devices@.len(),
            forall|j: int| 0 <= j < a.peripherals@.len() ==> config_fits(entries_view(#[trigger] a.peripherals@[j].config@)),
            forall|j: int| 0 <= j < i ==> config_fits(entries_view(#[trigger] a.devices@[j].config@)),
        decreases a.devices@.len() - i,
    {
        if !config_fits_exec(&a.devices[i].config) {
            return false;
        }
        i = i + 1;
    }
    true
}

/// The line every board file starts with.
pub open spec fn board_header() -> Seq<char> {
    "# Auto-generated by rshome-codegen. Do not edit."@
}

/// `board_info.yaml`.
pub open spec fn board_info_spec(a: HardwareAssembly) -> Seq<char> {
    board_header() + "\nboard_name: \""@ + a.label@ + "\"\nchip: "@ + a.idf_target@ + "\nversion: \"1.0\"\ndescription: \""@
        + a.description@ + "\""@
}

/// The lines of the first `n` configuration entries.
pub open spec fn config_lines(c: Seq<(Seq<char>, JsonV)>, n: int) -> Seq<char>
    decreases n,
{
    if n <= 0 || n > c.len() {
        Seq::empty()
    } else {
        config_lines(c, n - 1) + "\n      "@ + c[n - 1].0 + ":"@ + after_key(c[n - 1].1, 8)
    }
}

/// The `config:` block, absent when there is no entry.
pub open spec fn config_block(c: Seq<(Seq<char>, JsonV)>) -> Seq<char> {
    if c.len() == 0 {
        Seq::empty()
    } else {
        "\n    config:"@ + config_lines(c, c.len() as int)
    }
}

/// The `- item` lines of the first `n` names.
pub open spec fn list_lines(names: Seq<String>, n: int) -> Seq<char>
    decreases n,
{
    if n <= 0 || n > names.len() {
        Seq::empty()
    } else {
        list_lines(names, n - 1) + "\n      - "@ + names[n - 1]@
    }
}

/// One peripheral entry.
pub open spec fn peripheral_text(p: BoardPeripheral) -> Seq<char> {
    "\n  - name: "@ + p.name@ + "\n    type: "@ + p.periph_type@ + "\n    role: "@ + p.role@ + config_block(
        entries_view(p.config@),
    )
}

/// The entries of the first `n` peripherals.
pub open spec fn peripherals_text(ps: Seq<BoardPeripheral>, n: int) -> Seq<char>
    decreases n,
{
    if n <= 0 || n > ps.len() {
        Seq::empty()
    } else {
        peripherals_text(ps, n - 1) + peripheral_text(ps[n - 1])
    }
}

/// `board_peripherals.yaml`.
pub open spec fn board_peripherals_spec(a: HardwareAssembly) -> Seq<char> {
    board_header() + "\nperipherals:"@ + peripherals_text(a.peripherals@, a.peripherals@.len() as int)
}

/// The `type:` written for a logical device type: itself when the board
/// manager knows it, else `custom`.
pub open spec fn device_type_yaml(t: Seq<char>) -> Seq<char> {
    if builtin_device_types().contains(t) {
        t
    } else {
        "custom"@
    }
}

/// One device entry.
pub open spec fn device_text(d: BoardDevice) -> Seq<char> {
    "\n  - name: "@ + d.name@ + "\n    type: "@ + device_type_yaml(d.device_type@) + (if d.peripherals@.len() == 0 {
        Seq::empty()
    } else {
        "\n    peripherals:"@ + list_lines(d.peripherals@, d.peripherals@.len() as int)
    }) + config_block(entries_view(d.config@)) + "\n    dependencies:"@ + (if d.dependencies@.len() == 0 {
        "\n      []"@
    } else {
        list_lines(d.dependencies@, d.dependencies@.len() as int)
    })
}

/// The entries of the first `n` devices.
pub open spec fn devices_text(ds: Seq<BoardDevice>, n: int) -> Seq<char>
    decreases n,
{
    if n <= 0 || n > ds.len() {
        Seq::empty()
    } else {
        devices_text(ds, n - 1) + device_text(ds[n - 1])
    }
}

/// `board_devices.yaml`.
pub open spec fn board_devices_spec(a: HardwareAssembly) -> Seq<char> {
    board_header() + "\ndevices:"@ + devices_text(a.devices@, a.devices@.len() as int)
}

fn push_config(out: &mut String, c: &Vec<(String, Json)>)
    requires
        config_fits(entries_view(c@)),
    ensures
        final(out)@ == old(out)@ + config_block(entries_view(c@)),
{
    let ghost cv = entries_view(c@);
    if c.len() == 0 {
        proof {
            assert(out@ =~= old(out)@ + config_block(cv));
        }
        return;
    }
    push_str(out, "\n    config:");
    let ghost start = out@;
    let mut i: usize = 0;
    proof {
        assert(out@ =~= start + config_lines(cv, 0));
    }
    while i < c.len()
        invariant
            cv == entries_view(c@),
            config_fits(cv),
            i <= c@.len(),
            out@ == start + config_lines(cv, i as int),
        decreases c@.len() - i,
    {
        proof {
            assert(cv[i as int] == (c@[i as int].0@, c@[i as int].1@));
            assert(8 + 4 * json_depth(cv[i as int].1) <= usize::MAX);
        }
        push_str(out, "\n      ");
        push_str(out, c[i].0.as_str());
        push_str(out, ":");
        push_after_key(out, &c[i].1, 8);
        proof {
            assert(out@ =~= start + config_lines(cv, i + 1));
        }
        i = i + 1;
    }
    proof {
        assert(out@ =~= old(out)@ + config_block(cv));
    }
}

fn push_list(out: &mut String, names: &Vec<String>)
    ensures
        final(out)@ == old(out)@ + list_lines(names@, names@.len() as int),
{
    let mut i: usize = 0;
    proof {
        assert(out@ =~= old(out)@ + list_lines(names@, 0));
    }
    while i < names.len()
        invariant
            i <= names@.len(),
            out@ == old(out)@ + list_lines(names@, i as int),
        decreases names@.len() - i,
    {
        push_str(out, "\n      - ");
        push_str(out, names[i].as_str());
        proof {
            assert(out@ =~= old(out)@ + list_lines(names@, i + 1));
        }
        i = i + 1;
    }
}

fn push_device(out: &mut String, d: &BoardDevice)
    requires
        config_fits(entries_view(d.config@)),
    ensures
        final(out)@ == old(out)@ + device_text(*d),
{
    push_str(out, "\n  - name: ");
    push_str(out, d.name.as_str());
    push_str(out, "\n    type: ");
    push_str(out, resolve_device_type_yaml(d.device_type.as_str()));
    let ghost p0 = out@;
    if d.peripherals.len() > 0 {
        push_str(out, "\n    peripherals:");
        push_list(out, &d.peripherals);
    }
    let ghost p1 = out@;
    push_config(out, &d.config);
    let ghost p2 = out@;
    push_str(out, "\n    dependencies:");
    let ghost p3 = out@;
    if d.dependencies.len() == 0 {
        push_str(out, "\n      []");
    } else {
        push_list(out, &d.dependencies);
    }
    proof {
        assert(out@ =~= old(out)@ + device_text(*d));
    }
}

/// Generates the board manager's YAML files from a hardware assembly.
pub struct BoardYamlGenerator<'a> {
    pub assembly: &'a HardwareAssembly,
}

impl<'a> BoardYamlGenerator<'a> {
    pub fn new(assembly: &'a HardwareAssembly) -> (r: Self)
        ensures
            *r.assembly == *assembly,
    {
        BoardYamlGenerator { assembly }
    }

    /// `board_info.yaml`: board name, chip, version and description.
    pub fn generate_board_info(&self) -> (r: String)
        ensures
            r@ == board_info_spec(*self.assembly),
    {
        let a = self.assembly;
        let mut out = owned("# Auto-generated by rshome-codegen. Do not edit.");
        push_str(&mut out, "\nboard_name: \"");
        push_str(&mut out, a.label.as_str());
        push_str(&mut out, "\"\nchip: ");
        push_str(&mut out, a.idf_target.as_str());
        push_str(&mut out, "\nversion: \"1.0\"\ndescription: \"");
        push_str(&mut out, a.description.as_str());
        push_str(&mut out, "\"");
        proof {
            assert(out@ =~= board_info_spec(*a));
        }
        out
    }

    /// `board_peripherals.yaml`: one entry per peripheral with its name,
    /// type, role and configuration.
    pub fn generate_peripherals(&self) -> (r: String)
        requires
            assembly_fits(*self.assembly),
        ensures
            r@ == board_peripherals_spec(*self.assembly),
    {
        let a = self.assembly;
        let ps = &a.peripherals;
        let mut out = owned("# Auto-generated by rshome-codegen. Do not edit.");
        push_str(&mut out, "\nperipherals:");
        let ghost start = out@;
        let mut i: usize = 0;
        proof {
            assert(out@ =~= start + peripherals_text(ps@, 0));
        }
        while i < ps.len()
            invariant
                ps == &a.peripherals,
                assembly_fits(*a),
                i <= ps@.len(),
                out@ == start + peripherals_text(ps@, i as int),
            decreases ps@.len() - i,
        {
            let p = &ps[i];
            proof {
                assert(config_fits(entries_view(ps@[i as int].config@)));
            }
            let ghost before = out@;
            push_str(&mut out, "\n  - name: ");
            push_str(&mut out, p.name.as_str());
            push_str(&mut out, "\n    type: ");
            push_str(&mut out, p.periph_type.as_str());
            push_str(&mut out, "\n    role: ");
            push_str(&mut out, p.role.as_str());
            push_config(&mut out, &p.config);
            proof {
                assert(out@ =~= before + peripheral_text(ps@[i as int]));
                assert(out@ =~= start + peripherals_text(ps@, i + 1));
            }
            i = i + 1;
        }
        proof {
            assert(out@ =~= board_peripherals_spec(*a));
        }
        out
    }

    /// `board_devices.yaml`: one entry per device with its name, resolved
    /// type, peripherals, configuration and dependencies.
    pub fn generate_devices(&self) -> (r: String)
        requires
            assembly_fits(*self.assembly),
        ensures
            r@ == board_devices_spec(*self.assembly),
    {
        let a = self.assembly;
        let ds = &a.devices;
        let mut out = owned("# Auto-generated by rshome-codegen. Do not edit.");
        push_str(&mut out, "\ndevices:");
        let ghost start = out@;
        let mut i: usize = 0;
        proof {
            assert(out@ =~= start + devices_text(ds@, 0));
        }
        while i < ds.len()
            invariant
                ds == &a.devices,
                assembly_fits(*a),
                i <= ds@.len(),
                out@ == start + devices_text(ds@, i as int),
            decreases ds@.len() - i,
        {
            proof {
                assert(config_fits(entries_view(ds@[i as int].config@)));
            }
            let ghost before = out@;
            push_device(&mut out, &ds[i]);
            proof {
                assert(out@ =~= start + devices_text(ds@, i + 1));
            }
            i = i + 1;
        }
        proof {
            assert(out@ =~= board_devices_spec(*a));
        }
        out
    }
}

} // verus!
