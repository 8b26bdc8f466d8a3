use vstd::prelude::*;

verus! {

use crate::model::{Export, ExportV, SessionV, Tab, TabV, Window, WindowV};
use crate::text::push_char;

// ---------------------------------------------------------------------------
// The shape of the emitted document: strings, arrays, and objects. The
// encoder never emits numbers; a tab's index is dropped, and dates are
// already rendered text.
// ---------------------------------------------------------------------------

#[verifier::ext_equal]
pub enum OutJson {
    Str(Seq<char>),
    Arr(Seq<OutJson>),
    Obj(Seq<(Seq<char>, OutJson)>),
}

/// The document emitted for one tab: title and url, and nothing else.
pub open spec fn tab_out(t: TabV) -> OutJson {
    OutJson::Obj(seq![("title"@, OutJson::Str(t.title)), ("url"@, OutJson::Str(t.url))])
}

/// The document emitted for one window.
pub open spec fn window_out(w: WindowV) -> OutJson {
    OutJson::Obj(seq![("tabs"@, OutJson::Arr(w.tabs.map_values(|t: TabV| tab_out(t))))])
}

/// The document emitted for one session.
pub open spec fn session_out(s: SessionV) -> OutJson {
    OutJson::Obj(
        seq![
            ("name"@, OutJson::Str(s.name)),
            ("date"@, OutJson::Str(s.date)),
            ("windows"@, OutJson::Arr(s.windows.map_values(|w: WindowV| window_out(w)))),
        ],
    )
}

/// The document emitted for a whole export.
pub open spec fn export_out(e: ExportV) -> OutJson {
    OutJson::Obj(
        seq![("sessions"@, OutJson::Arr(e.sessions.map_values(|s: SessionV| session_out(s))))],
    )
}

// ---------------------------------------------------------------------------
// Rendering: pretty-printed JSON text with two-space indentation.
// ---------------------------------------------------------------------------

/// The lower-case hexadecimal digit for a value below sixteen.
pub open spec fn hex_digit(v: nat) -> char {
    if v == 0 {
        '0'
    } else if v == 1 {
        '1'
    } else if v == 2 {
        '2'
    } else if v == 3 {
        '3'
    } else if v == 4 {
        '4'
    } else if v == 5 {
        '5'
    } else if v == 6 {
        '6'
    } else if v == 7 {
        '7'
    } else if v == 8 {
        '8'
    } else if v == 9 {
        '9'
    } else if v == 10 {
        'a'
    } else if v == 11 {
        'b'
    } else if v == 12 {
        'c'
    } else if v == 13 {
        'd'
    } else if v == 14 {
        'e'
    } else {
        'f'
    }
}

/// How one character appears inside an emitted string: quote, backslash
/// and control characters are escaped; everything else stands as it is.
pub open spec fn escape_char(c: char) -> Seq<char> {
    let v = c as u32;
    if v == 0x22 {
        seq!['\\', '"']
    } else if v == 0x5C {
        seq!['\\', '\\']
    } else if v == 0x08 {
        seq!['\\', 'b']
    } else if v == 0x09 {
        seq!['\\', 't']
    } else if v == 0x0A {
        seq!['\\', 'n']
    } else if v == 0x0C {
        seq!['\\', 'f']
    } else if v == 0x0D {
        seq!['\\', 'r']
    } else if v < 0x20 {
        seq!['\\', 'u', '0', '0', hex_digit((v >> 4) as nat), hex_digit((v & 15) as nat)]
    } else {
        seq![c]
    }
}

/// A string's characters, escaped for emission.
pub open spec fn escape_str(s: Seq<char>) -> Seq<char>
    decreases s.len(),
{
    if s.len() == 0 {
        Seq::empty()
    } else {
        escape_char(s[0]) + escape_str(s.skip(1))
    }
}

/// A string as emitted: escaped and wrapped in quotes.
pub open spec fn quoted(s: Seq<char>) -> Seq<char> {
    seq!['"'] + escape_str(s) + seq!['"']
}

/// Two spaces for each indentation level.
pub open spec fn indent(level: nat) -> Seq<char>
    decreases level,
{
    if level == 0 {
        Seq::empty()
    } else {
        indent((level - 1) as nat) + seq![' ', ' ']
    }
}

/// The pretty-printed text of a value standing at the given level.
pub open spec fn render(j: OutJson, level: nat) -> Seq<char>
    decreases j, 0nat,
{
    match j {
        OutJson::Str(s) => quoted(s),
        OutJson::Arr(items) => {
            if items.len() == 0 {
                seq!['[', ']']
            } else {
                seq!['['] + render_items_from(items, 0, (level + 1) as nat) + seq!['\n'] + indent(
                    level,
                ) + seq![']']
            }
        },
        OutJson::Obj(fields) => {
            if fields.len() == 0 {
                seq!['{', '}']
            } else {
                seq!['{'] + render_fields_from(fields, 0, (level + 1) as nat) + seq!['\n'] + indent(
                    level,
                ) + seq!['}']
            }
        },
    }
}

/// The text of an array's items from position `i` on: each on its own
/// indented line, separated by commas.
pub open spec fn render_items_from(items: Seq<OutJson>, i: int, level: nat) -> Seq<char>
    decreases items, items.len() - i,
{
    if i < 0 || i >= items.len() {
        Seq::empty()
    } else {
        let head = seq!['\n'] + indent(level) + render(items[i], level);
        if i == items.len() - 1 {
            head
        } else {
            head + seq![','] + render_items_from(items, i + 1, level)
        }
    }
}

/// The text of an object's fields from position `i` on: each key and its
/// value on its own indented line, separated by commas.
pub open spec fn render_fields_from(
    fields: Seq<(Seq<char>, OutJson)>,
    i: int,
    level: nat,
) -> Seq<char>
    decreases fields, fields.len() - i,
{
    if i < 0 || i >= fields.len() {
        Seq::empty()
    } else {
        let head = seq!['\n'] + indent(level) + quoted(fields[i].0) + seq![':', ' '] + render(
            fields[i].1,
            level,
        );
        if i == fields.len() - 1 {
            head
        } else {
            head + seq![','] + render_fields_from(fields, i + 1, level)
        }
    }
}

// ---------------------------------------------------------------------------
// The executable writer.
// ---------------------------------------------------------------------------

proof fn lemma_escape_str_concat(a: Seq<char>, b: Seq<char>)
    ensures
        escape_str(a + b) == escape_str(a) + escape_str(b),
    decreases a.len(),
{
    if a.len() == 0 {
        assert(a + b =~= b);
        assert(escape_str(a + b) =~= escape_str(a) + escape_str(b));
    } else {
        assert((a + b)[0] == a[0]);
        assert((a + b).skip(1) =~= a.skip(1) + b);
        lemma_escape_str_concat(a.skip(1), b);
        assert(escape_str(a + b) =~= escape_str(a) + escape_str(b));
    }
}

proof fn lemma_escape_str_snoc(s: Seq<char>, i: int)
    requires
        0 <= i < s.len(),
    ensures
        escape_str(s.take(i + 1)) == escape_str(s.take(i)) + escape_char(s[i]),
{
    reveal_with_fuel(escape_str, 3);
    assert(s.take(i + 1) =~= s.take(i) + seq![s[i]]);
    lemma_escape_str_concat(s.take(i), seq![s[i]]);
    assert(seq![s[i]].skip(1) =~= Seq::<char>::empty());
    assert(escape_str(seq![s[i]]) =~= escape_char(s[i]));
}

/// Writes the lower-case hexadecimal digit of a value below sixteen.
fn hex_digit_exec(v: u32) -> (r: char)
    requires
        v < 16,
    ensures
        r == hex_digit(v as nat),
{
    if v == 0 {
        '0'
    } else if v == 1 {
        '1'
    } else if v == 2 {
        '2'
    } else if v == 3 {
        '3'
    } else if v == 4 {
        '4'
    } else if v == 5 {
        '5'
    } else if v == 6 {
        '6'
    } else if v == 7 {
        '7'
    } else if v == 8 {
        '8'
    } else if v == 9 {
        '9'
    } else if v == 10 {
        'a'
    } else if v == 11 {
        'b'
    } else if v == 12 {
        'c'
    } else if v == 13 {
        'd'
    } else if v == 14 {
        'e'
    } else {
        'f'
    }
}

/// Appends one string's characters in escaped form.
fn write_escaped(out: &mut String, s: &str)
    ensures
        final(out)@ == old(out)@ + escape_str(s@),
{
    let n = s.unicode_len();
    let mut i: usize = 0;
    proof {
        assert(s@.take(0) =~= Seq::<char>::empty());
        assert(out@ + escape_str(s@.take(0)) =~= out@);
    }
    while i < n
        invariant
            i <= n,
            n == s@.len(),
            out@ == old(out)@ + escape_str(s@.take(i as int)),
        decreases n - i,
    {
        let c = s.get_char(i);
        let v = c as u32;
        let ghost before = out@;
        if v == 0x22 {
            push_char(out, '\\');
            push_char(out, '"');
        } else if v == 0x5C {
            push_char(out, '\\');
            push_char(out, '\\');
        } else if v == 0x08 {
            push_char(out, '\\');
            push_char(out, 'b');
        } else if v == 0x09 {
            push_char(out, '\\');
            push_char(out, 't');
        } else if v == 0x0A {
            push_char(out, '\\');
            push_char(out, 'n');
        } else if v == 0x0C {
            push_char(out, '\\');
            push_char(out, 'f');
        } else if v == 0x0D {
            push_char(out, '\\');
            push_char(out, 'r');
        } else if v < 0x20 {
            push_char(out, '\\');
            push_char(out, 'u');
            push_char(out, '0');
            push_char(out, '0');
            proof {
                assert((v >> 4) < 16 && (v & 15) < 16) by (bit_vector)
                    requires
                        v < 0x20,
                ;
            }
            let hi = hex_digit_exec(v >> 4);
            let lo = hex_digit_exec(v & 15);
            push_char(out, hi);
            push_char(out, lo);
        } else {
            push_char(out, c);
        }
        proof {
            assert(out@ =~= before + escape_char(c));
            lemma_escape_str_snoc(s@, i as int);
            assert(out@ =~= old(out)@ + escape_str(s@.take(i + 1)));
        }
        i = i + 1;
    }
    proof {
        assert(s@.take(n as int) =~= s@);
    }
}

/// Appends a string in its emitted form: quoted and escaped.
fn write_quoted(out: &mut String, s: &str)
    ensures
        final(out)@ == old(out)@ + quoted(s@),
{
    push_char(out, '"');
    write_escaped(out, s);
    push_char(out, '"');
    proof {
        assert(out@ =~= old(out)@ + quoted(s@));
    }
}

/// Appends two spaces per indentation level.
fn write_indent(out: &mut String, level: usize)
    ensures
        final(out)@ == old(out)@ + indent(level as nat),
{
    let mut k: usize = 0;
    proof {
        assert(out@ + indent(0) =~= out@);
    }
    while k < level
        invariant
            k <= level,
            out@ == old(out)@ + indent(k as nat),
        decreases level - k,
    {
        push_char(out, ' ');
        push_char(out, ' ');
        k = k + 1;
        proof {
            assert(out@ =~= old(out)@ + indent(k as nat));
        }
    }
}

/// Appends the emitted object of one tab: its title and url only.
#[verifier::rlimit(100)]
fn write_tab(out: &mut String, t: &Tab, level: usize)
    requires
        level <= 16,
    ensures
        final(out)@ == old(out)@ + render(tab_out(t@), level as nat),
{
    let l1 = level + 1;
    push_char(out, '{');
    push_char(out, '\n');
    write_indent(out, l1);
    write_quoted(out, "title");
    push_char(out, ':');
    push_char(out, ' ');
    write_quoted(out, t.title.as_str());
    push_char(out, ',');
    push_char(out, '\n');
    write_indent(out, l1);
    write_quoted(out, "url");
    push_char(out, ':');
    push_char(out, ' ');
    write_quoted(out, t.url.as_str());
    push_char(out, '\n');
    write_indent(out, level);
    push_char(out, '}');
    proof {
        reveal_with_fuel(render, 3);
        reveal_with_fuel(render_fields_from, 3);
        let fields = seq![("title"@, OutJson::Str(t@.title)), ("url"@, OutJson::Str(t@.url))];
        assert(fields.len() == 2);
        assert(out@ =~= old(out)@ + render(tab_out(t@), level as nat));
    }
}

/// Appends the emitted object of one window: its tabs array.
#[verifier::rlimit(100)]
fn write_window(out: &mut String, w: &Window, level: usize)
    requires
        level <= 14,
    ensures
        final(out)@ == old(out)@ + render(window_out(w@), level as nat),
{
    let l1 = level + 1;
    let l2 = level + 2;
    push_char(out, '{');
    push_char(out, '\n');
    write_indent(out, l1);
    write_quoted(out, "tabs");
    push_char(out, ':');
    push_char(out, ' ');
    let ghost items: Seq<OutJson> = w@.tabs.map_values(|t: TabV| tab_out(t));
    let n = w.tabs.len();
    proof {
        assert(items.len() == n);
    }
    if n == 0 {
        push_char(out, '[');
        push_char(out, ']');
    } else {
        push_char(out, '[');
        let ghost base = out@;
        let ghost target = base + render_items_from(items, 0, l2 as nat);
        let mut i: usize = 0;
        while i < n
            invariant
                i <= n,
                n == w.tabs@.len(),
                n == items.len(),
                l2 == level + 2,
                level <= 14,
                items == w@.tabs.map_values(|t: TabV| tab_out(t)),
                target == base + render_items_from(items, 0, l2 as nat),
                if i < n {
                    target == out@ + render_items_from(items, i as int, l2 as nat)
                } else {
                    out@ == target
                },
            decreases n - i,
        {
            push_char(out, '\n');
            write_indent(out, l2);
            let ghost mid = out@;
            write_tab(out, &w.tabs[i], l2);
            proof {
                assert(items[i as int] == tab_out(w.tabs@[i as int]@));
                assert(out@ =~= mid + render(items[i as int], l2 as nat));
            }
            if i + 1 < n {
                push_char(out, ',');
                proof {
                    assert(target =~= out@ + render_items_from(items, i + 1, l2 as nat));
                }
            } else {
                proof {
                    assert(out@ =~= target);
                }
            }
            i = i + 1;
        }
        push_char(out, '\n');
        write_indent(out, l1);
        push_char(out, ']');
    }
    push_char(out, '\n');
    write_indent(out, level);
    push_char(out, '}');
    proof {
        reveal_with_fuel(render, 3);
        reveal_with_fuel(render_fields_from, 2);
        assert(out@ =~= old(out)@ + render(window_out(w@), level as nat));
    }
}


/// Appends the emitted array of a session's windows.
#[verifier::rlimit(100)]
fn write_windows_array(out: &mut String, windows: &Vec<crate::model::Window>, level: usize)
    requires
        level <= 13,
    ensures
        final(out)@ == old(out)@ + render(
            OutJson::Arr(crate::normalize::window_views(windows@).map_values(|w: WindowV| window_out(w))),
            level as nat,
        ),
{
    let l1 = level + 1;
    let ghost items: Seq<OutJson> = crate::normalize::window_views(windows@).map_values(
        |w: WindowV| window_out(w),
    );
    let n = windows.len();
    proof {
        assert(items.len() == n);
    }
    if n == 0 {
        push_char(out, '[');
        push_char(out, ']');
        proof {
            assert(out@ =~= old(out)@ + render(OutJson::Arr(items), level as nat));
        }
    } else {
        push_char(out, '[');
        let ghost base = out@;
        let ghost target = base + render_items_from(items, 0, l1 as nat);
        let mut i: usize = 0;
        while i < n
            invariant
                i <= n,
                n == windows@.len(),
                n == items.len(),
                l1 == level + 1,
                level <= 13,
                items == crate::normalize::window_views(windows@).map_values(
                    |w: WindowV| window_out(w),
                ),
                target == base + render_items_from(items, 0, l1 as nat),
                if i < n {
                    target == out@ + render_items_from(items, i as int, l1 as nat)
                } else {
                    out@ == target
                },
            decreases n - i,
        {
            push_char(out, '\n');
            write_indent(out, l1);
            let ghost mid = out@;
            write_window(out, &windows[i], l1);
            proof {
                assert(crate::normalize::window_views(windows@)[i as int] == windows@[i as int]@);
                assert(items[i as int] == window_out(windows@[i as int]@));
                assert(out@ =~= mid + render(items[i as int], l1 as nat));
            }
            if i + 1 < n {
                push_char(out, ',');
                proof {
                    assert(target =~= out@ + render_items_from(items, i + 1, l1 as nat));
                }
            } else {
                proof {
                    assert(out@ =~= target);
                }
            }
            i = i + 1;
        }
        push_char(out, '\n');
        write_indent(out, level);
        push_char(out, ']');
        proof {
            assert(out@ =~= old(out)@ + render(OutJson::Arr(items), level as nat));
        }
    }
}

/// How one session's emitted object reads, spelled out field by field.
#[verifier::rlimit(100)]
proof fn lemma_render_session(sv: SessionV, level: nat)
    ensures
        render(session_out(sv), level) == seq!['{'] + (seq!['\n'] + indent((level + 1) as nat)
            + quoted("name"@) + seq![':', ' '] + quoted(sv.name)) + seq![','] + (seq!['\n']
            + indent((level + 1) as nat) + quoted("date"@) + seq![':', ' '] + quoted(sv.date))
            + seq![','] + (seq!['\n'] + indent((level + 1) as nat) + quoted("windows"@) + seq![
            ':',
            ' ',
        ] + render(
            OutJson::Arr(sv.windows.map_values(|w: WindowV| window_out(w))),
            (level + 1) as nat,
        )) + seq!['\n'] + indent(level) + seq!['}'],
{
    reveal_with_fuel(render, 2);
    reveal_with_fuel(render_fields_from, 4);
    let l1n = (level + 1) as nat;
    let warr = OutJson::Arr(sv.windows.map_values(|w: WindowV| window_out(w)));
    let fields = seq![
        ("name"@, OutJson::Str(sv.name)),
        ("date"@, OutJson::Str(sv.date)),
        ("windows"@, warr),
    ];
    assert(fields.len() == 3);
    let f0 = seq!['\n'] + indent(l1n) + quoted("name"@) + seq![':', ' '] + quoted(sv.name);
    let f1 = seq!['\n'] + indent(l1n) + quoted("date"@) + seq![':', ' '] + quoted(sv.date);
    let f2 = seq!['\n'] + indent(l1n) + quoted("windows"@) + seq![':', ' '] + render(
        fields[2].1,
        l1n,
    );
    assert(render(fields[0].1, l1n) == quoted(sv.name));
    assert(render(fields[1].1, l1n) == quoted(sv.date));
    assert(render_fields_from(fields, 2, l1n) =~= f2);
    assert(render_fields_from(fields, 1, l1n) =~= f1 + seq![','] + f2);
    assert(render_fields_from(fields, 0, l1n) =~= f0 + seq![','] + (f1 + seq![','] + f2));
    assert(render(session_out(sv), level) =~= seq!['{'] + render_fields_from(fields, 0, l1n)
        + seq!['\n'] + indent(level) + seq!['}']);
    assert(render(session_out(sv), level) =~= seq!['{'] + (seq!['\n'] + indent(l1n) + quoted(
        "name"@,
    ) + seq![':', ' '] + quoted(sv.name)) + seq![','] + (seq!['\n'] + indent(l1n) + quoted(
        "date"@,
    ) + seq![':', ' '] + quoted(sv.date)) + seq![','] + (seq!['\n'] + indent(l1n) + quoted(
        "windows"@,
    ) + seq![':', ' '] + render(warr, l1n)) + seq!['\n'] + indent(level) + seq!['}']);
}

/// Appends the emitted object of one session: name, date, windows.
#[verifier::rlimit(100)]
fn write_session(out: &mut String, se: &crate::model::Session, level: usize)
    requires
        level <= 12,
    ensures
        final(out)@ == old(out)@ + render(session_out(se@), level as nat),
{
    let l1 = level + 1;
    let ghost l1n = (level + 1) as nat;
    push_char(out, '{');
    let ghost g0 = old(out)@ + seq!['{'];
    proof {
        assert(out@ =~= g0);
    }
    push_char(out, '\n');
    write_indent(out, l1);
    write_quoted(out, "name");
    push_char(out, ':');
    push_char(out, ' ');
    write_quoted(out, se.name.as_str());
    let ghost g1 = g0 + (seq!['\n'] + indent(l1n) + quoted("name"@) + seq![':', ' '] + quoted(
        se@.name,
    ));
    proof {
        assert(out@ =~= g1);
    }
    push_char(out, ',');
    push_char(out, '\n');
    write_indent(out, l1);
    write_quoted(out, "date");
    push_char(out, ':');
    push_char(out, ' ');
    write_quoted(out, se.date.as_str());
    let ghost g2 = g1 + seq![','] + (seq!['\n'] + indent(l1n) + quoted("date"@) + seq![':', ' ']
        + quoted(se@.date));
    proof {
        assert(out@ =~= g2);
    }
    push_char(out, ',');
    push_char(out, '\n');
    write_indent(out, l1);
    write_quoted(out, "windows");
    push_char(out, ':');
    push_char(out, ' ');
    write_windows_array(out, &se.windows, l1);
    let ghost warr = OutJson::Arr(se@.windows.map_values(|w: WindowV| window_out(w)));
    let ghost g3 = g2 + seq![','] + (seq!['\n'] + indent(l1n) + quoted("windows"@) + seq![
        ':',
        ' ',
    ] + render(warr, l1n));
    proof {
        assert(crate::normalize::window_views(se.windows@).map_values(|w: WindowV| window_out(w))
            =~= se@.windows.map_values(|w: WindowV| window_out(w)));
        assert(out@ =~= g3);
    }
    push_char(out, '\n');
    write_indent(out, level);
    push_char(out, '}');
    proof {
        assert(out@ =~= g3 + seq!['\n'] + indent(level as nat) + seq!['}']);
        lemma_render_session(se@, level as nat);
        assert(out@ =~= old(out)@ + render(session_out(se@), level as nat));
    }
}

/// Renders the whole export as pretty-printed JSON text. Every tab object
/// carries exactly its title and url: the capture index is never emitted.
#[verifier::rlimit(100)]
pub fn encode_export(e: &Export) -> (r: String)
    ensures
        r@ == render(export_out(e@), 0),
{
    let mut out = String::new();
    push_char(&mut out, '{');
    push_char(&mut out, '\n');
    write_indent(&mut out, 1);
    write_quoted(&mut out, "sessions");
    push_char(&mut out, ':');
    push_char(&mut out, ' ');
    let ghost items: Seq<OutJson> = e@.sessions.map_values(|s: SessionV| session_out(s));
    let n = e.sessions.len();
    proof {
        assert(items.len() == n);
    }
    if n == 0 {
        push_char(&mut out, '[');
        push_char(&mut out, ']');
    } else {
        push_char(&mut out, '[');
        let ghost base = out@;
        let ghost target = base + render_items_from(items, 0, 2);
        let mut i: usize = 0;
        while i < n
            invariant
                i <= n,
                n == e.sessions@.len(),
                n == items.len(),
                items == e@.sessions.map_values(|s: SessionV| session_out(s)),
                target == base + render_items_from(items, 0, 2),
                if i < n {
                    target == out@ + render_items_from(items, i as int, 2)
                } else {
                    out@ == target
                },
            decreases n - i,
        {
            push_char(&mut out, '\n');
            write_indent(&mut out, 2);
            let ghost mid = out@;
            write_session(&mut out, &e.sessions[i], 2);
            proof {
                assert(items[i as int] == session_out(e.sessions@[i as int]@));
                assert(out@ =~= mid + render(items[i as int], 2));
            }
            if i + 1 < n {
                push_char(&mut out, ',');
                proof {
                    assert(target =~= out@ + render_items_from(items, i + 1, 2));
                }
            } else {
                proof {
                    assert(out@ =~= target);
                }
            }
            i = i + 1;
        }
        push_char(&mut out, '\n');
        write_indent(&mut out, 1);
        push_char(&mut out, ']');
    }
    push_char(&mut out, '\n');
    write_indent(&mut out, 0);
    push_char(&mut out, '}');
    proof {
        reveal_with_fuel(render, 3);
        reveal_with_fuel(render_fields_from, 2);
        assert(out@ =~= Seq::<char>::empty() + render(export_out(e@), 0));
        assert(Seq::<char>::empty() + render(export_out(e@), 0) =~= render(export_out(e@), 0));
    }
    out
}


} // verus!
