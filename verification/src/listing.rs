//! The file listing handler.
//!
//! The store's entries are handed in as plain values — name, size and
//! inspected duration — and filtered: an entry stays when its lower-cased
//! name contains the lower-cased filter (if one is given) and when its
//! duration is known and lies at or under the ceiling (if one is given).
//! Entries without a known duration are excluded whenever a ceiling is
//! active.  The survivors are serialized, in order, as a JSON array.
use vstd::prelude::*;
use crate::bytes::{ascii_seq, contains_seq, contains_bytes, push_all, push_lit, lit_vec};
use crate::ceiling::{DurationCeiling, le_ceiling_spec, le_ceiling, parse_ceiling,
    parse_ceiling_spec};
use crate::duration::AudioDuration;
use crate::query::{find_value, pairs_of, query_of, query_string, parse_pairs, lookup};
use crate::response::{h200_json, entry_json_spec, push_entry_json};
use crate::text::{lossy_of, lower_of, lossy_utf8, lower_utf8};

verus! {

/// One stored file, as the listing sees it.
pub struct StoreEntry {
    pub name: Vec<u8>,
    pub size: u64,
    pub duration: Option<AudioDuration>,
}

impl StoreEntry {
    pub open spec fn wf(self) -> bool {
        match self.duration {
            Some(d) => d.wf(),
            None => true,
        }
    }

    pub open spec fn dur_model(self) -> Option<(int, int)> {
        crate::duration::opt_duration_model(self.duration)
    }
}

/// The name filter of a listing request: the `filter` key's value, or the
/// whole query string verbatim when the key is absent and the string is not
/// empty.
pub open spec fn filter_spec(raw: Seq<u8>) -> Option<Seq<u8>> {
    match find_value(pairs_of(query_of(raw)), ascii_seq("filter"@)) {
        Some(v) => Some(v),
        None => if query_of(raw).len() > 0 {
            Some(query_of(raw))
        } else {
            None
        },
    }
}

/// The duration ceiling of a listing request: the `maxduration` key's value
/// when it parses as a decimal number.
pub open spec fn ceiling_spec(raw: Seq<u8>) -> Option<(bool, int, int)> {
    match find_value(pairs_of(query_of(raw)), ascii_seq("maxduration"@)) {
        Some(v) => parse_ceiling_spec(v),
        None => None,
    }
}

/// Whether one entry survives the two filters.
pub open spec fn include_spec(
    e: StoreEntry,
    filt: Option<Seq<u8>>,
    ceil: Option<(bool, int, int)>,
) -> bool {
    (match filt {
        None => true,
        Some(f) => contains_seq(lower_of(lossy_of(e.name@)), lower_of(lossy_of(f))),
    }) && (match ceil {
        None => true,
        Some(c) => match e.duration {
            Some(d) => le_ceiling_spec(d.num as int, d.den as int, c),
            None => false,
        },
    })
}

/// The surviving entries among the first `i`, in order.
pub open spec fn kept(
    entries: Seq<StoreEntry>,
    i: int,
    filt: Option<Seq<u8>>,
    ceil: Option<(bool, int, int)>,
) -> Seq<StoreEntry>
    decreases i,
{
    if i <= 0 {
        Seq::empty()
    } else {
        kept(entries, i - 1, filt, ceil) + (if include_spec(entries[i - 1], filt, ceil) {
            seq![entries[i - 1]]
        } else {
            Seq::empty()
        })
    }
}

/// The JSON objects of a run of entries, comma-separated.
pub open spec fn entries_json(s: Seq<StoreEntry>) -> Seq<u8>
    decreases s.len(),
{
    if s.len() == 0 {
        Seq::empty()
    } else if s.len() == 1 {
        entry_json_spec(s[0].name@, s[0].size as nat, s[0].dur_model())
    } else {
        entries_json(s.drop_last()) + ascii_seq(","@) + entry_json_spec(
            s.last().name@,
            s.last().size as nat,
            s.last().dur_model(),
        )
    }
}

/// The whole listing response for the routed path `raw` and the store's
/// entries.
pub open spec fn list_response_spec(raw: Seq<u8>, entries: Seq<StoreEntry>) -> Seq<u8> {
    h200_json() + ascii_seq("["@) + entries_json(
        kept(entries, entries.len() as int, filter_spec(raw), ceiling_spec(raw)),
    ) + ascii_seq("]\r\n"@)
}

/// Builds the listing response.
pub fn list_response(raw: &Vec<u8>, entries: &Vec<StoreEntry>) -> (r: Vec<u8>)
    requires
        forall|i: int| 0 <= i < entries@.len() ==> (#[trigger] entries@[i]).wf(),
    ensures
        r@ == list_response_spec(raw@, entries@),
{
    let lh = "HTTP/1.1 200 OK\r\nContent-Type: application/json\r\n\r\n";
    let lb = "[";
    let lc = ",";
    let le = "]\r\n";
    let lf = "filter";
    let lm = "maxduration";
    proof {
        reveal_strlit("HTTP/1.1 200 OK\r\nContent-Type: application/json\r\n\r\n");
        reveal_strlit("[");
        reveal_strlit(",");
        reveal_strlit("]\r\n");
        reveal_strlit("filter");
        reveal_strlit("maxduration");
        assert(vstd::string::is_ascii(lh));
        assert(vstd::string::is_ascii(lb));
        assert(vstd::string::is_ascii(lc));
        assert(vstd::string::is_ascii(le));
        assert(vstd::string::is_ascii(lf));
        assert(vstd::string::is_ascii(lm));
    }
    let q = query_string(raw);
    let ps = parse_pairs(&q);
    let key_f = lit_vec(lf);
    let key_m = lit_vec(lm);
    let ghost fspec = filter_spec(raw@);
    let ghost cspec = ceiling_spec(raw@);
    let filt: Option<Vec<u8>> = match lookup(&ps, &key_f) {
        Some(v) => Some(v),
        None => {
            if q.len() > 0 {
                let mut c: Vec<u8> = Vec::new();
                push_all(&mut c, &q);
                proof {
                    assert(c@ =~= q@);
                }
                Some(c)
            } else {
                None
            }
        },
    };
    proof {
        assert(crate::route::opt_bytes(filt) == fspec);
    }
    let ceil: Option<DurationCeiling> = match lookup(&ps, &key_m) {
        Some(v) => parse_ceiling(&v),
        None => None,
    };
    proof {
        if ceil is Some {
            assert(ceil.unwrap().wf() && cspec == Some(ceil.unwrap().model()));
        } else {
            assert(cspec is None);
        }
    }
    let lowered: Option<Vec<u8>> = match &filt {
        Some(f) => Some(lower_utf8(&lossy_utf8(f))),
        None => None,
    };
    let mut out: Vec<u8> = Vec::new();
    push_lit(&mut out, lh);
    push_lit(&mut out, lb);
    let mut first = true;
    let mut i: usize = 0;
    proof {
        assert(out@ =~= h200_json() + ascii_seq("["@) + entries_json(
            kept(entries@, 0, fspec, cspec),
        ));
    }
    while i < entries.len()
        invariant
            vstd::string::is_ascii(lc),
            lc@ == ","@,
            i <= entries@.len(),
            forall|k: int| 0 <= k < entries@.len() ==> (#[trigger] entries@[k]).wf(),
            crate::route::opt_bytes(filt) == fspec,
            match ceil {
                Some(c) => c.wf() && cspec == Some(c.model()),
                None => cspec is None,
            },
            match lowered {
                Some(l) => filt is Some && l@ == lower_of(lossy_of(filt.unwrap()@)),
                None => filt is None,
            },
            out@ == h200_json() + ascii_seq("["@) + entries_json(
                kept(entries@, i as int, fspec, cspec),
            ),
            first == (kept(entries@, i as int, fspec, cspec).len() == 0),
        decreases entries.len() - i,
    {
        let name_ok: bool = match &lowered {
            None => true,
            Some(l) => {
                let ln = lower_utf8(&lossy_utf8(&entries[i].name));
                contains_bytes(&ln, l)
            },
        };
        let dur_ok: bool = match &ceil {
            None => true,
            Some(c) => match &entries[i].duration {
                Some(d) => le_ceiling(d, c),
                None => false,
            },
        };
        proof {
            assert((name_ok && dur_ok) == include_spec(entries@[i as int], fspec, cspec));
        }
        let ghost prev = kept(entries@, i as int, fspec, cspec);
        if name_ok && dur_ok {
            if !first {
                push_lit(&mut out, lc);
            }
            push_entry_json(&mut out, &entries[i].name, entries[i].size, &entries[i].duration);
            first = false;
            proof {
                let now = kept(entries@, i + 1, fspec, cspec);
                assert(now =~= prev.push(entries@[i as int]));
                assert(now.len() == prev.len() + 1);
                assert(now.last() == entries@[i as int]);
                if prev.len() == 0 {
                    assert(now[0] == entries@[i as int]);
                    assert(entries_json(now) == entry_json_spec(
                        entries@[i as int].name@,
                        entries@[i as int].size as nat,
                        entries@[i as int].dur_model(),
                    ));
                } else {
                    assert(now.drop_last() =~= prev);
                    assert(entries_json(now) == entries_json(prev) + ascii_seq(","@)
                        + entry_json_spec(
                        entries@[i as int].name@,
                        entries@[i as int].size as nat,
                        entries@[i as int].dur_model(),
                    ));
                }
                assert(out@ =~= h200_json() + ascii_seq("["@) + entries_json(now));
            }
        } else {
            proof {
                assert(kept(entries@, i + 1, fspec, cspec) =~= prev);
            }
        }
        i += 1;
    }
    push_lit(&mut out, le);
    proof {
        assert(out@ =~= list_response_spec(raw@, entries@));
    }
    out
}

/// With no filter and no ceiling, every entry of the store is listed, in
/// order, each with its exact size: the survivors of the first `i` entries
/// are exactly those `i` entries.
pub proof fn lemma_no_filter_keeps_all(entries: Seq<StoreEntry>, i: int)
    requires
        0 <= i <= entries.len(),
    ensures
        kept(entries, i, None, None) == entries.take(i),
    decreases i,
{
    if i > 0 {
        lemma_no_filter_keeps_all(entries, i - 1);
        assert(kept(entries, i, None, None) =~= entries.take(i));
    } else {
        assert(kept(entries, i, None, None) =~= entries.take(i));
    }
}

/// Every listed entry passed both filters and came from the store: with
/// `filter=f`, no entry whose lower-cased name lacks the lower-cased `f`
/// survives, and with a ceiling, no entry with an unknown or over-ceiling
/// duration survives.
pub proof fn lemma_kept_sound(
    entries: Seq<StoreEntry>,
    i: int,
    filt: Option<Seq<u8>>,
    ceil: Option<(bool, int, int)>,
)
    requires
        0 <= i <= entries.len(),
    ensures
        forall|j: int| 0 <= j < kept(entries, i, filt, ceil).len() ==> include_spec(
            #[trigger] kept(entries, i, filt, ceil)[j],
            filt,
            ceil,
        ) && exists|k: int| 0 <= k < i && kept(entries, i, filt, ceil)[j] == entries[k],
    decreases i,
{
    if i > 0 {
        lemma_kept_sound(entries, i - 1, filt, ceil);
        let prev = kept(entries, i - 1, filt, ceil);
        let now = kept(entries, i, filt, ceil);
        assert forall|j: int| 0 <= j < now.len() implies include_spec(#[trigger] now[j], filt, ceil)
            && exists|k: int| 0 <= k < i && now[j] == entries[k] by {
            if j < prev.len() {
                assert(now[j] == prev[j]);
                let k = choose|k: int| 0 <= k < i - 1 && prev[j] == entries[k];
                assert(0 <= k < i && now[j] == entries[k]);
            } else {
                assert(now[j] == entries[i - 1]);
                assert(0 <= i - 1 < i && now[j] == entries[i - 1]);
            }
        }
    }
}

/// Every store entry that passes both filters is listed.
pub proof fn lemma_kept_complete(
    entries: Seq<StoreEntry>,
    i: int,
    filt: Option<Seq<u8>>,
    ceil: Option<(bool, int, int)>,
)
    requires
        0 <= i <= entries.len(),
    ensures
        forall|k: int|
            0 <= k < i && include_spec(#[trigger] entries[k], filt, ceil) ==> kept(
                entries,
                i,
                filt,
                ceil,
            ).contains(entries[k]),
    decreases i,
{
    if i > 0 {
        lemma_kept_complete(entries, i - 1, filt, ceil);
        let prev = kept(entries, i - 1, filt, ceil);
        let now = kept(entries, i, filt, ceil);
        assert forall|k: int|
            0 <= k < i && include_spec(#[trigger] entries[k], filt, ceil) implies now.contains(
            entries[k],
        ) by {
            if k < i - 1 {
                let j = choose|j: int| 0 <= j < prev.len() && prev[j] == entries[k];
                assert(now[j] == entries[k]);
            } else {
                assert(now[now.len() - 1] == entries[i - 1]);
            }
        }
    }
}

} // verus!
