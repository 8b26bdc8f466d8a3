use vstd::prelude::*;

verus! {

use crate::encode::{session_out, tab_out, window_out, export_out, OutJson};
use crate::model::{ExportV, SessionV, TabV, WindowV};

/// Whether any object anywhere in a document carries the given key.
pub open spec fn has_key(j: OutJson, key: Seq<char>) -> bool
    decreases j,
{
    match j {
        OutJson::Str(_) => false,
        OutJson::Arr(items) => exists|i: int| 0 <= i < items.len() && has_key(items[i], key),
        OutJson::Obj(fields) => exists|i: int|
            0 <= i < fields.len() && (fields[i].0 == key || has_key(fields[i].1, key)),
    }
}

proof fn lemma_tab_no_index_key(t: TabV)
    ensures
        !has_key(tab_out(t), "index"@),
{
    reveal_strlit("index");
    reveal_strlit("title");
    reveal_strlit("url");
    let fields = seq![("title"@, OutJson::Str(t.title)), ("url"@, OutJson::Str(t.url))];
    assert("title"@[0] == 't' && "index"@[0] == 'i');
    assert("url"@.len() == 3 && "index"@.len() == 5);
    assert("title"@ != "index"@);
    assert("url"@ != "index"@);
    assert(!has_key(fields[0].1, "index"@));
    assert(!has_key(fields[1].1, "index"@));
    assert forall|i: int| 0 <= i < fields.len() implies !((#[trigger] fields[i]).0 == "index"@
        || has_key(fields[i].1, "index"@)) by {
        if i == 0 {
            assert(fields[i] == fields[0]);
        } else {
            assert(fields[i] == fields[1]);
        }
    }
}

proof fn lemma_window_no_index_key(w: WindowV)
    ensures
        !has_key(window_out(w), "index"@),
{
    reveal_strlit("index");
    reveal_strlit("tabs");
    let items = w.tabs.map_values(|t: TabV| tab_out(t));
    let fields = seq![("tabs"@, OutJson::Arr(items))];
    assert("tabs"@.len() == 4 && "index"@.len() == 5);
    assert("tabs"@ != "index"@);
    assert forall|i: int| 0 <= i < items.len() implies !has_key(#[trigger] items[i], "index"@) by {
        assert(items[i] == tab_out(w.tabs[i]));
        lemma_tab_no_index_key(w.tabs[i]);
    }
    assert(!has_key(fields[0].1, "index"@));
    assert forall|i: int| 0 <= i < fields.len() implies !((#[trigger] fields[i]).0 == "index"@
        || has_key(fields[i].1, "index"@)) by {
        assert(fields[i] == fields[0]);
    }
}

proof fn lemma_session_no_index_key(sv: SessionV)
    ensures
        !has_key(session_out(sv), "index"@),
{
    reveal_strlit("index");
    reveal_strlit("name");
    reveal_strlit("date");
    reveal_strlit("windows");
    let items = sv.windows.map_values(|w: WindowV| window_out(w));
    let fields = seq![
        ("name"@, OutJson::Str(sv.name)),
        ("date"@, OutJson::Str(sv.date)),
        ("windows"@, OutJson::Arr(items)),
    ];
    assert("name"@.len() == 4 && "date"@.len() == 4 && "windows"@.len() == 7 && "index"@.len()
        == 5);
    assert("name"@ != "index"@);
    assert("date"@ != "index"@);
    assert("windows"@ != "index"@);
    assert forall|i: int| 0 <= i < items.len() implies !has_key(#[trigger] items[i], "index"@) by {
        assert(items[i] == window_out(sv.windows[i]));
        lemma_window_no_index_key(sv.windows[i]);
    }
    assert(!has_key(fields[2].1, "index"@));
    assert forall|i: int| 0 <= i < fields.len() implies !((#[trigger] fields[i]).0 == "index"@
        || has_key(fields[i].1, "index"@)) by {
        if i == 0 {
            assert(fields[i] == fields[0]);
        } else if i == 1 {
            assert(fields[i] == fields[1]);
        } else {
            assert(fields[i] == fields[2]);
        }
    }
}

/// No emitted document carries an `index` key anywhere: a tab's internal
/// capture position never reaches the output.
pub proof fn lemma_index_never_emitted(e: ExportV)
    ensures
        !has_key(export_out(e), "index"@),
{
    reveal_strlit("index");
    reveal_strlit("sessions");
    let items = e.sessions.map_values(|s: SessionV| session_out(s));
    let fields = seq![("sessions"@, OutJson::Arr(items))];
    assert("sessions"@.len() == 8 && "index"@.len() == 5);
    assert("sessions"@ != "index"@);
    assert forall|i: int| 0 <= i < items.len() implies !has_key(#[trigger] items[i], "index"@) by {
        assert(items[i] == session_out(e.sessions[i]));
        lemma_session_no_index_key(e.sessions[i]);
    }
    assert(!has_key(fields[0].1, "index"@));
    assert forall|i: int| 0 <= i < fields.len() implies !((#[trigger] fields[i]).0 == "index"@
        || has_key(fields[i].1, "index"@)) by {
        assert(fields[i] == fields[0]);
    }
}


// ---------------------------------------------------------------------------
// Round trip: reading an emitted document back gives the encoded tree,
// with each tab's internal capture index cleared.
// ---------------------------------------------------------------------------

/// A tab as it survives the round trip: the capture index is cleared.
pub open spec fn strip_tab(t: TabV) -> TabV {
    TabV { title: t.title, url: t.url, index: 0 }
}

pub open spec fn strip_window(w: WindowV) -> WindowV {
    WindowV { tabs: w.tabs.map_values(|t: TabV| strip_tab(t)) }
}

pub open spec fn strip_session(s: SessionV) -> SessionV {
    SessionV { name: s.name, date: s.date, windows: s.windows.map_values(|w: WindowV| strip_window(w)) }
}

pub open spec fn strip_export(e: ExportV) -> ExportV {
    ExportV { sessions: e.sessions.map_values(|s: SessionV| strip_session(s)) }
}

/// Reads one emitted tab object back; its date-free shape has exactly a
/// `title` and a `url` string.
pub open spec fn read_tab(j: OutJson) -> Option<TabV> {
    match j {
        OutJson::Obj(fields) => {
            if fields.len() == 2 {
                match (fields[0].1, fields[1].1) {
                    (OutJson::Str(title), OutJson::Str(url)) => {
                        if fields[0].0 == "title"@ && fields[1].0 == "url"@ {
                            Some(TabV { title: title, url: url, index: 0 })
                        } else {
                            None
                        }
                    },
                    _ => None,
                }
            } else {
                None
            }
        },
        _ => None,
    }
}

pub open spec fn read_tabs(items: Seq<OutJson>) -> Option<Seq<TabV>>
    decreases items.len(),
{
    if items.len() == 0 {
        Some(Seq::empty())
    } else {
        match (read_tab(items[0]), read_tabs(items.skip(1))) {
            (Some(t), Some(rest)) => Some(seq![t] + rest),
            _ => None,
        }
    }
}

pub open spec fn read_window(j: OutJson) -> Option<WindowV> {
    match j {
        OutJson::Obj(fields) => {
            if fields.len() == 1 && fields[0].0 == "tabs"@ {
                match fields[0].1 {
                    OutJson::Arr(items) => {
                        match read_tabs(items) {
                            Some(tabs) => Some(WindowV { tabs: tabs }),
                            None => None,
                        }
                    },
                    _ => None,
                }
            } else {
                None
            }
        },
        _ => None,
    }
}

pub open spec fn read_windows(items: Seq<OutJson>) -> Option<Seq<WindowV>>
    decreases items.len(),
{
    if items.len() == 0 {
        Some(Seq::empty())
    } else {
        match (read_window(items[0]), read_windows(items.skip(1))) {
            (Some(w), Some(rest)) => Some(seq![w] + rest),
            _ => None,
        }
    }
}

/// Reads one emitted session object back, treating the date as opaque
/// text rather than re-parsing it as a timestamp.
pub open spec fn read_session(j: OutJson) -> Option<SessionV> {
    match j {
        OutJson::Obj(fields) => {
            if fields.len() == 3 && fields[0].0 == "name"@ && fields[1].0 == "date"@ && fields[2].0
                == "windows"@ {
                match (fields[0].1, fields[1].1, fields[2].1) {
                    (OutJson::Str(name), OutJson::Str(date), OutJson::Arr(items)) => {
                        match read_windows(items) {
                            Some(ws) => Some(SessionV { name: name, date: date, windows: ws }),
                            None => None,
                        }
                    },
                    _ => None,
                }
            } else {
                None
            }
        },
        _ => None,
    }
}

pub open spec fn read_sessions(items: Seq<OutJson>) -> Option<Seq<SessionV>>
    decreases items.len(),
{
    if items.len() == 0 {
        Some(Seq::empty())
    } else {
        match (read_session(items[0]), read_sessions(items.skip(1))) {
            (Some(se), Some(rest)) => Some(seq![se] + rest),
            _ => None,
        }
    }
}

pub open spec fn read_export(j: OutJson) -> Option<ExportV> {
    match j {
        OutJson::Obj(fields) => {
            if fields.len() == 1 && fields[0].0 == "sessions"@ {
                match fields[0].1 {
                    OutJson::Arr(items) => {
                        match read_sessions(items) {
                            Some(ss) => Some(ExportV { sessions: ss }),
                            None => None,
                        }
                    },
                    _ => None,
                }
            } else {
                None
            }
        },
        _ => None,
    }
}

proof fn lemma_read_tabs(ts: Seq<TabV>)
    ensures
        read_tabs(ts.map_values(|t: TabV| tab_out(t))) == Some(
            ts.map_values(|t: TabV| strip_tab(t)),
        ),
    decreases ts.len(),
{
    let items = ts.map_values(|t: TabV| tab_out(t));
    if ts.len() == 0 {
        assert(ts.map_values(|t: TabV| strip_tab(t)) =~= Seq::<TabV>::empty());
    } else {
        assert(items[0] == tab_out(ts[0]));
        assert(read_tab(items[0]) == Some(strip_tab(ts[0])));
        assert(items.skip(1) =~= ts.skip(1).map_values(|t: TabV| tab_out(t)));
        lemma_read_tabs(ts.skip(1));
        assert(seq![strip_tab(ts[0])] + ts.skip(1).map_values(|t: TabV| strip_tab(t)) =~= ts.map_values(
            |t: TabV| strip_tab(t),
        ));
    }
}

proof fn lemma_read_window(w: WindowV)
    ensures
        read_window(window_out(w)) == Some(strip_window(w)),
{
    lemma_read_tabs(w.tabs);
}

proof fn lemma_read_windows(ws: Seq<WindowV>)
    ensures
        read_windows(ws.map_values(|w: WindowV| window_out(w))) == Some(
            ws.map_values(|w: WindowV| strip_window(w)),
        ),
    decreases ws.len(),
{
    let items = ws.map_values(|w: WindowV| window_out(w));
    if ws.len() == 0 {
        assert(ws.map_values(|w: WindowV| strip_window(w)) =~= Seq::<WindowV>::empty());
    } else {
        assert(items[0] == window_out(ws[0]));
        lemma_read_window(ws[0]);
        assert(items.skip(1) =~= ws.skip(1).map_values(|w: WindowV| window_out(w)));
        lemma_read_windows(ws.skip(1));
        assert(seq![strip_window(ws[0])] + ws.skip(1).map_values(|w: WindowV| strip_window(w))
            =~= ws.map_values(|w: WindowV| strip_window(w)));
    }
}

proof fn lemma_read_session(sv: SessionV)
    ensures
        read_session(session_out(sv)) == Some(strip_session(sv)),
{
    lemma_read_windows(sv.windows);
}

proof fn lemma_read_sessions(ss: Seq<SessionV>)
    ensures
        read_sessions(ss.map_values(|s: SessionV| session_out(s))) == Some(
            ss.map_values(|s: SessionV| strip_session(s)),
        ),
    decreases ss.len(),
{
    let items = ss.map_values(|s: SessionV| session_out(s));
    if ss.len() == 0 {
        assert(ss.map_values(|s: SessionV| strip_session(s)) =~= Seq::<SessionV>::empty());
    } else {
        assert(items[0] == session_out(ss[0]));
        lemma_read_session(ss[0]);
        assert(items.skip(1) =~= ss.skip(1).map_values(|s: SessionV| session_out(s)));
        lemma_read_sessions(ss.skip(1));
        assert(seq![strip_session(ss[0])] + ss.skip(1).map_values(|s: SessionV| strip_session(s))
            =~= ss.map_values(|s: SessionV| strip_session(s)));
    }
}

/// Round trip of the emitted structure: reading an encoded document back
/// yields the encoded tree with every name, date, title and url intact
/// and the same nesting shape; only each tab's capture index is cleared.
pub proof fn lemma_encode_round_trip(e: ExportV)
    ensures
        read_export(export_out(e)) == Some(strip_export(e)),
{
    lemma_read_sessions(e.sessions);
}

} // verus!
