//! Text export of the break records: one header line, then one
//! comma-separated line per record in start-time order.  Writing the text
//! to a file is the host's business.

use vstd::prelude::*;
use crate::fmt::push_u64;
use crate::fmt::spec_dec;
use crate::state::BreakRecord;
use crate::store::BreakStore;

verus! {

pub open spec fn spec_bool_text(b: bool) -> Seq<char> {
    if b {
        "true"@
    } else {
        "false"@
    }
}

/// One record's line: its fields in declaration order, comma-separated.
pub open spec fn spec_csv_line(r: BreakRecord) -> Seq<char> {
    spec_dec(r.id as int) + ","@ + spec_dec(r.started_at as int) + ","@ + spec_dec(
        r.duration_seconds as int,
    ) + ","@ + spec_bool_text(r.completed) + ","@ + spec_bool_text(r.skipped) + ","@ + spec_dec(
        r.preceding_work_seconds as int,
    ) + "\n"@
}

/// The whole export: the header, then every record's line in order.
pub open spec fn spec_csv(rs: Seq<BreakRecord>) -> Seq<char>
    decreases rs.len(),
{
    if rs.len() == 0 {
        "id,started_at,duration_seconds,completed,skipped,preceding_work_seconds\n"@
    } else {
        spec_csv(rs.drop_last()) + spec_csv_line(rs.last())
    }
}

fn push_bool(out: &mut String, b: bool)
    ensures
        final(out)@ == old(out)@ + spec_bool_text(b),
{
    if b {
        out.append("true");
    } else {
        out.append("false");
    }
}

fn push_csv_line(out: &mut String, r: &BreakRecord)
    requires
        r.id >= 0,
    ensures
        final(out)@ == old(out)@ + spec_csv_line(*r),
{
    proof {
        reveal_strlit(",");
        reveal_strlit("\n");
    }
    push_u64(out, r.id as u64);
    out.append(",");
    push_u64(out, r.started_at);
    out.append(",");
    push_u64(out, r.duration_seconds as u64);
    out.append(",");
    push_bool(out, r.completed);
    out.append(",");
    push_bool(out, r.skipped);
    out.append(",");
    push_u64(out, r.preceding_work_seconds as u64);
    out.append("\n");
    proof {
        assert(out@ =~= old(out)@ + spec_csv_line(*r));
    }
}

/// Renders every break record as comma-separated text, oldest first.
pub fn export_to_csv(store: &BreakStore) -> (r: String)
    requires
        store.wf(),
    ensures
        r@ == spec_csv(store.records_seq()),
{
    proof {
        reveal_strlit(",");
        reveal_strlit("\n");
    }
    let records = store.records_all();
    let n = records.len();
    let mut out = String::from_str(
        "id,started_at,duration_seconds,completed,skipped,preceding_work_seconds\n",
    );
    let mut i: usize = 0;
    while i < n
        invariant
            records@ == store.records_seq(),
            store.wf(),
            n == records@.len(),
            0 <= i <= n,
            out@ == spec_csv(records@.subrange(0, i as int)),
        decreases n - i,
    {
        let r = records[i];
        proof {
            assert(records@.subrange(0, i + 1).drop_last() =~= records@.subrange(0, i as int));
            assert(records@.subrange(0, i + 1).last() == records@[i as int]);
        }
        push_csv_line(&mut out, &r);
        i = i + 1;
    }
    proof {
        assert(records@.subrange(0, n as int) =~= records@);
    }
    out
}

} // verus!
