//! What a run amounts to: the rows of its table, and the totals of its
//! requests for each flow of each group, in ascending order.

use crate::http::{HttpResult, ResultView};
use crate::text::{decimal, decimal_text};
use vstd::prelude::*;

verus! {

/// The totals of the requests of one flow, in ascending order.
#[derive(Debug)]
pub struct FlowTotals {
    pub flow: String,
    pub totals: Vec<u128>,
}

/// The flows of one group, in the order in which their first results came.
#[derive(Debug)]
pub struct GroupTotals {
    pub group: String,
    pub flows: Vec<FlowTotals>,
}

/// What the totals of a flow hold, as plain values.
pub struct FlowTotalsView {
    pub flow: Seq<char>,
    pub totals: Seq<u128>,
}

/// What the totals of a group hold, as plain values.
pub struct GroupTotalsView {
    pub group: Seq<char>,
    pub flows: Seq<FlowTotalsView>,
}

impl View for FlowTotals {
    type V = FlowTotalsView;

    open spec fn view(&self) -> FlowTotalsView {
        FlowTotalsView { flow: self.flow@, totals: self.totals@ }
    }
}

/// The views of the totals of flows.
pub open spec fn flow_views(flows: Seq<FlowTotals>) -> Seq<FlowTotalsView> {
    flows.map_values(|f: FlowTotals| f@)
}

impl View for GroupTotals {
    type V = GroupTotalsView;

    open spec fn view(&self) -> GroupTotalsView {
        GroupTotalsView { group: self.group@, flows: flow_views(self.flows@) }
    }
}

/// The views of the totals of groups.
pub open spec fn group_views(groups: Seq<GroupTotals>) -> Seq<GroupTotalsView> {
    groups.map_values(|g: GroupTotals| g@)
}

/// The values stand in ascending order.
pub open spec fn ascending(s: Seq<u128>) -> bool {
    forall|i: int, j: int| 0 <= i <= j < s.len() ==> s[i] <= s[j]
}

/// The number of values at the start of `s` that are below `v`.
pub open spec fn leading_below(s: Seq<u128>, v: u128) -> nat
    decreases s.len(),
{
    if s.len() == 0 || s[0] >= v {
        0
    } else {
        1 + leading_below(s.drop_first(), v)
    }
}

/// The values with `v` put before the first value that is not below it.
pub open spec fn placed(s: Seq<u128>, v: u128) -> Seq<u128> {
    s.insert(leading_below(s, v) as int, v)
}

/// The index of the first flow with the given name.
pub open spec fn flow_index(flows: Seq<FlowTotalsView>, flow: Seq<char>) -> Option<int>
    decreases flows.len(),
{
    if flows.len() == 0 {
        None
    } else if flows[0].flow == flow {
        Some(0)
    } else {
        match flow_index(flows.drop_first(), flow) {
            Some(i) => Some(i + 1),
            None => None,
        }
    }
}

/// The index of the first group with the given name.
pub open spec fn group_index(groups: Seq<GroupTotalsView>, group: Seq<char>) -> Option<int>
    decreases groups.len(),
{
    if groups.len() == 0 {
        None
    } else if groups[0].group == group {
        Some(0)
    } else {
        match group_index(groups.drop_first(), group) {
            Some(i) => Some(i + 1),
            None => None,
        }
    }
}

/// The flows after one more total for the flow named: the total is put in
/// its place among the totals of that flow, or a new flow goes to the end.
pub open spec fn with_total(flows: Seq<FlowTotalsView>, flow: Seq<char>, total: u128) -> Seq<
    FlowTotalsView,
> {
    match flow_index(flows, flow) {
        Some(i) => flows.update(
            i,
            FlowTotalsView { flow: flows[i].flow, totals: placed(flows[i].totals, total) },
        ),
        None => flows.push(FlowTotalsView { flow, totals: seq![total] }),
    }
}

/// The groups after one more result: its total goes to its flow in its
/// group, or a new group goes to the end.
pub open spec fn with_result(groups: Seq<GroupTotalsView>, result: ResultView) -> Seq<
    GroupTotalsView,
> {
    match group_index(groups, result.group) {
        Some(i) => groups.update(
            i,
            GroupTotalsView {
                group: groups[i].group,
                flows: with_total(groups[i].flows, result.flow, result.total_duration),
            },
        ),
        None => groups.push(
            GroupTotalsView {
                group: result.group,
                flows: seq![
                    FlowTotalsView { flow: result.flow, totals: seq![result.total_duration] },
                ],
            },
        ),
    }
}

/// The totals of a list of results, by group and flow.
pub open spec fn summarized(results: Seq<ResultView>) -> Seq<GroupTotalsView>
    decreases results.len(),
{
    if results.len() == 0 {
        Seq::empty()
    } else {
        with_result(summarized(results.drop_last()), results.last())
    }
}

/// The views of a list of results.
pub open spec fn result_views(results: Seq<HttpResult>) -> Seq<ResultView> {
    results.map_values(|r: HttpResult| r@)
}

/// The totals of every flow of every group are not empty and ascending.
pub open spec fn in_order(groups: Seq<GroupTotalsView>) -> bool {
    forall|i: int, j: int|
        0 <= i < groups.len() && 0 <= j < groups[i].flows.len() ==> {
            &&& (#[trigger] groups[i].flows[j]).totals.len() > 0
            &&& ascending(groups[i].flows[j].totals)
        }
}

/// Where the first `i` values are below `v` and the next one is not, `i`
/// values lead below `v`.
proof fn lemma_leading_below(s: Seq<u128>, v: u128, i: int)
    requires
        0 <= i <= s.len(),
        forall|j: int| 0 <= j < i ==> s[j] < v,
        i == s.len() || s[i] >= v,
    ensures
        leading_below(s, v) == i,
    decreases s.len(),
{
    if i > 0 {
        let rest = s.drop_first();
        assert forall|j: int| 0 <= j < i - 1 implies rest[j] < v by {
            assert(rest[j] == s[j + 1]);
        }
        lemma_leading_below(rest, v, i - 1);
    }
}

/// The values below `v` lead, and the next value is not below it.
proof fn lemma_leading_below_bounds(s: Seq<u128>, v: u128)
    ensures
        leading_below(s, v) <= s.len(),
        forall|j: int| 0 <= j < leading_below(s, v) ==> s[j] < v,
        leading_below(s, v) == s.len() || s[leading_below(s, v) as int] >= v,
    decreases s.len(),
{
    if !(s.len() == 0 || s[0] >= v) {
        let rest = s.drop_first();
        lemma_leading_below_bounds(rest, v);
        assert forall|j: int| 0 <= j < leading_below(s, v) implies s[j] < v by {
            if j > 0 {
                assert(s[j] == rest[j - 1]);
            }
        }
        if leading_below(s, v) != s.len() {
            assert(s[leading_below(s, v) as int] == rest[leading_below(rest, v) as int]);
        }
    }
}

/// Putting a value in its place keeps the order.
pub proof fn lemma_placed_ascending(s: Seq<u128>, v: u128)
    requires
        ascending(s),
    ensures
        ascending(placed(s, v)),
        placed(s, v).len() == s.len() + 1,
{
    lemma_leading_below_bounds(s, v);
    let k = leading_below(s, v) as int;
    let after = placed(s, v);
    assert forall|i: int, j: int| 0 <= i <= j < after.len() implies after[i] <= after[j] by {
        if j < k {
            assert(after[i] == s[i] && after[j] == s[j]);
        } else if j == k {
            if i < k {
                assert(after[i] == s[i]);
            }
        } else {
            assert(after[j] == s[j - 1]);
            if i < k {
                assert(after[i] == s[i]);
            } else if i == k {
                assert(s[k] <= s[j - 1]);
            } else {
                assert(after[i] == s[i - 1]);
            }
        }
    }
}

/// Where the flow at `i` is the first with the name, `i` is its index.
proof fn lemma_flow_index(flows: Seq<FlowTotalsView>, flow: Seq<char>, i: int)
    requires
        0 <= i <= flows.len(),
        forall|j: int| 0 <= j < i ==> (#[trigger] flows[j]).flow != flow,
        i == flows.len() || flows[i].flow == flow,
    ensures
        flow_index(flows, flow) == if i == flows.len() {
            None
        } else {
            Some(i)
        },
    decreases flows.len(),
{
    if flows.len() > 0 && i > 0 {
        let rest = flows.drop_first();
        assert forall|j: int| 0 <= j < i - 1 implies (#[trigger] rest[j]).flow != flow by {
            assert(rest[j] == flows[j + 1]);
        }
        assert(flows[0].flow != flow);
        lemma_flow_index(rest, flow, i - 1);
    }
}

/// The index of a flow is an index, of a flow with the name.
proof fn lemma_flow_index_bounds(flows: Seq<FlowTotalsView>, flow: Seq<char>)
    ensures
        match flow_index(flows, flow) {
            Some(i) => 0 <= i < flows.len() && flows[i].flow == flow,
            None => true,
        },
    decreases flows.len(),
{
    if flows.len() > 0 && flows[0].flow != flow {
        lemma_flow_index_bounds(flows.drop_first(), flow);
    }
}

/// Where the group at `i` is the first with the name, `i` is its index.
proof fn lemma_group_index(groups: Seq<GroupTotalsView>, group: Seq<char>, i: int)
    requires
        0 <= i <= groups.len(),
        forall|j: int| 0 <= j < i ==> (#[trigger] groups[j]).group != group,
        i == groups.len() || groups[i].group == group,
    ensures
        group_index(groups, group) == if i == groups.len() {
            None
        } else {
            Some(i)
        },
    decreases groups.len(),
{
    if groups.len() > 0 && i > 0 {
        let rest = groups.drop_first();
        assert forall|j: int| 0 <= j < i - 1 implies (#[trigger] rest[j]).group != group by {
            assert(rest[j] == groups[j + 1]);
        }
        assert(groups[0].group != group);
        lemma_group_index(rest, group, i - 1);
    }
}

/// The index of a group is an index, of a group with the name.
proof fn lemma_group_index_bounds(groups: Seq<GroupTotalsView>, group: Seq<char>)
    ensures
        match group_index(groups, group) {
            Some(i) => 0 <= i < groups.len() && groups[i].group == group,
            None => true,
        },
    decreases groups.len(),
{
    if groups.len() > 0 && groups[0].group != group {
        lemma_group_index_bounds(groups.drop_first(), group);
    }
}

/// One more result keeps the totals in order.
proof fn lemma_with_result_in_order(groups: Seq<GroupTotalsView>, result: ResultView)
    requires
        in_order(groups),
    ensures
        in_order(with_result(groups, result)),
{
    let after = with_result(groups, result);
    lemma_group_index_bounds(groups, result.group);
    assert forall|i: int, j: int| 0 <= i < after.len() && 0 <= j < after[i].flows.len() implies (
    #[trigger] after[i].flows[j]).totals.len() > 0 && ascending(after[i].flows[j].totals) by {
        match group_index(groups, result.group) {
            Some(g) => {
                if i == g {
                    let flows = groups[g].flows;
                    lemma_flow_index_bounds(flows, result.flow);
                    match flow_index(flows, result.flow) {
                        Some(f) => {
                            if j == f {
                                assert(flows[f].totals.len() > 0 && ascending(flows[f].totals)) by {
                                    assert(groups[g].flows[f].totals.len() > 0);
                                }
                                lemma_placed_ascending(flows[f].totals, result.total_duration);
                            } else {
                                assert(after[i].flows[j] == groups[g].flows[j]);
                            }
                        },
                        None => {
                            if j < flows.len() {
                                assert(after[i].flows[j] == groups[g].flows[j]);
                            }
                        },
                    }
                } else {
                    assert(after[i].flows[j] == groups[i].flows[j]);
                }
            },
            None => {
                if i < groups.len() {
                    assert(after[i].flows[j] == groups[i].flows[j]);
                }
            },
        }
    }
}

/// In a summary, the totals of every flow are not empty and stand in
/// ascending order.
pub proof fn summaries_are_in_order(results: Seq<ResultView>)
    ensures
        in_order(summarized(results)),
    decreases results.len(),
{
    if results.len() > 0 {
        summaries_are_in_order(results.drop_last());
        lemma_with_result_in_order(summarized(results.drop_last()), results.last());
    }
}

/// Puts a total in its place among ascending totals.
pub fn place(totals: &mut Vec<u128>, total: u128)
    ensures
        final(totals)@ == placed(old(totals)@, total),
{
    let mut i: usize = 0;
    while i < totals.len() && totals[i] < total
        invariant
            i <= totals.len(),
            *totals == *old(totals),
            forall|j: int| 0 <= j < i ==> totals@[j] < total,
        decreases totals.len() - i,
    {
        i += 1;
    }
    proof {
        lemma_leading_below(totals@, total, i as int);
    }
    totals.insert(i, total);
}

/// Adds one total to the flow named.
pub fn add_total(flows: &mut Vec<FlowTotals>, flow: &String, total: u128)
    ensures
        flow_views(final(flows)@) == with_total(flow_views(old(flows)@), flow@, total),
{
    let ghost before = flow_views(flows@);
    let mut i: usize = 0;
    while i < flows.len() && !(flows[i].flow == *flow)
        invariant
            i <= flows.len(),
            *flows == *old(flows),
            before == flow_views(flows@),
            forall|j: int| 0 <= j < i ==> (#[trigger] before[j]).flow != flow@,
        decreases flows.len() - i,
    {
        assert(before[i as int] == flows@[i as int]@);
        i += 1;
    }
    proof {
        if i < flows.len() {
            assert(before[i as int] == flows@[i as int]@);
        }
        lemma_flow_index(before, flow@, i as int);
    }
    if i < flows.len() {
        let mut entry = flows.remove(i);
        place(&mut entry.totals, total);
        let ghost updated = entry@;
        flows.insert(i, entry);
        assert(flow_views(flows@) =~= before.update(i as int, updated));
    } else {
        let mut totals: Vec<u128> = Vec::new();
        totals.push(total);
        let entry = FlowTotals { flow: flow.clone(), totals };
        let ghost added = entry@;
        assert(added.totals =~= seq![total]);
        flows.push(entry);
        assert(flow_views(flows@) =~= before.push(added));
    }
}

/// Adds one result to the totals.
pub fn add_result(groups: &mut Vec<GroupTotals>, result: &HttpResult)
    ensures
        group_views(final(groups)@) == with_result(group_views(old(groups)@), result@),
{
    let ghost before = group_views(groups@);
    let mut i: usize = 0;
    while i < groups.len() && !(groups[i].group == result.group)
        invariant
            i <= groups.len(),
            *groups == *old(groups),
            before == group_views(groups@),
            forall|j: int| 0 <= j < i ==> (#[trigger] before[j]).group != result@.group,
        decreases groups.len() - i,
    {
        assert(before[i as int] == groups@[i as int]@);
        i += 1;
    }
    proof {
        if i < groups.len() {
            assert(before[i as int] == groups@[i as int]@);
        }
        lemma_group_index(before, result@.group, i as int);
    }
    if i < groups.len() {
        let mut entry = groups.remove(i);
        add_total(&mut entry.flows, &result.flow, result.total_duration);
        let ghost updated = entry@;
        groups.insert(i, entry);
        assert(group_views(groups@) =~= before.update(i as int, updated));
    } else {
        let mut flows: Vec<FlowTotals> = Vec::new();
        add_total(&mut flows, &result.flow, result.total_duration);
        let entry = GroupTotals { group: result.group.clone(), flows };
        let ghost added = entry@;
        assert(flow_views(Seq::<FlowTotals>::empty()) =~= Seq::<FlowTotalsView>::empty());
        assert(added.flows =~= seq![
            FlowTotalsView { flow: result@.flow, totals: seq![result@.total_duration] },
        ]);
        groups.push(entry);
        assert(group_views(groups@) =~= before.push(added));
    }
}

/// The totals of the results, by group and flow: groups and flows in the
/// order in which their first results came, the totals of each flow in
/// ascending order.
pub fn summarize(results: &Vec<HttpResult>) -> (r: Vec<GroupTotals>)
    ensures
        group_views(r@) == summarized(result_views(results@)),
        in_order(group_views(r@)),
{
    let ghost all = result_views(results@);
    let mut groups: Vec<GroupTotals> = Vec::new();
    let mut i: usize = 0;
    assert(all.take(0) =~= Seq::<ResultView>::empty());
    assert(group_views(groups@) =~= Seq::<GroupTotalsView>::empty());
    while i < results.len()
        invariant
            i <= results.len(),
            all == result_views(results@),
            group_views(groups@) == summarized(all.take(i as int)),
        decreases results.len() - i,
    {
        proof {
            assert(all.take(i + 1).drop_last() =~= all.take(i as int));
            assert(all.take(i + 1).last() == results@[i as int]@);
        }
        add_result(&mut groups, &results[i]);
        i += 1;
    }
    proof {
        assert(all.take(i as int) =~= all);
        summaries_are_in_order(all);
    }
    groups
}

impl FlowTotals {
    /// The number of requests of the flow.
    pub fn count(&self) -> (r: usize)
        ensures
            r == self@.totals.len(),
    {
        self.totals.len()
    }

    /// The lowest total, where there is any.
    pub fn minimum(&self) -> (r: Option<u128>)
        ensures
            r == if self@.totals.len() == 0 {
                None
            } else {
                Some(self@.totals[0])
            },
    {
        if self.totals.len() == 0 {
            None
        } else {
            Some(self.totals[0])
        }
    }

    /// The highest total, where there is any.
    pub fn maximum(&self) -> (r: Option<u128>)
        ensures
            r == if self@.totals.len() == 0 {
                None
            } else {
                Some(self@.totals.last())
            },
    {
        if self.totals.len() == 0 {
            None
        } else {
            Some(self.totals[self.totals.len() - 1])
        }
    }

    /// The total in the middle, the upper one of two, where there is any.
    pub fn median(&self) -> (r: Option<u128>)
        ensures
            r == if self@.totals.len() == 0 {
                None
            } else {
                Some(self@.totals[self@.totals.len() as int / 2])
            },
    {
        if self.totals.len() == 0 {
            None
        } else {
            Some(self.totals[self.totals.len() / 2])
        }
    }
}

impl GroupTotals {
    /// The number of requests of the group, where the machine can hold it.
    pub fn count(&self) -> (r: Option<usize>)
        ensures
            match r {
                Some(n) => n == requests(self@.flows),
                None => requests(self@.flows) > usize::MAX,
            },
    {
        let ghost all = self@.flows;
        let mut n: usize = 0;
        let mut i: usize = 0;
        assert(all.take(0) =~= Seq::<FlowTotalsView>::empty());
        while i < self.flows.len()
            invariant
                i <= self.flows.len(),
                all == self@.flows,
                n == requests(all.take(i as int)),
            decreases self.flows.len() - i,
        {
            proof {
                assert(all.take(i + 1).drop_last() =~= all.take(i as int));
                assert(all.take(i + 1).last() == self.flows@[i as int]@);
                lemma_requests_grow(all, i + 1);
            }
            n = match n.checked_add(self.flows[i].totals.len()) {
                Some(n) => n,
                None => {
                    return None;
                },
            };
            i += 1;
        }
        assert(all.take(i as int) =~= all);
        Some(n)
    }
}

/// The number of requests of a list of flows.
pub open spec fn requests(flows: Seq<FlowTotalsView>) -> nat
    decreases flows.len(),
{
    if flows.len() == 0 {
        0
    } else {
        requests(flows.drop_last()) + flows.last().totals.len()
    }
}

/// The first flows of a list hold no more requests than the whole list.
proof fn lemma_requests_grow(flows: Seq<FlowTotalsView>, k: int)
    requires
        0 <= k <= flows.len(),
    ensures
        requests(flows.take(k)) <= requests(flows),
    decreases flows.len() - k,
{
    if k < flows.len() {
        lemma_requests_grow(flows, k + 1);
        assert(flows.take(k + 1).drop_last() =~= flows.take(k));
    } else {
        assert(flows.take(k) =~= flows);
    }
}

/// The microseconds of a duration in nanoseconds, rounded down.
pub open spec fn micros(nanos: u128) -> nat {
    (nanos / 1000) as nat
}

/// The heading of the table of results: the names of its twelve columns.
pub const TABLE_HEADING: &'static str =
    "start timestamp,response status,group,flow,total in μs,DNS lookup in μs,Connection in μs,TLS handshake in μs,redirecting in μs,sending in μs,waiting in μs,downloading in μs";

/// The row of a result in the table: its timestamp, status, group and flow,
/// then its durations in microseconds, the total first, separated by
/// commas.
pub open spec fn table_row(r: ResultView) -> Seq<char> {
    r.start_timestamp + ","@ + r.response_status + ","@ + r.group + ","@ + r.flow + ","@ + decimal(
        micros(r.total_duration),
    ) + ","@ + decimal(micros(r.dns_duration)) + ","@ + decimal(micros(r.connect_duration)) + ","@
        + decimal(micros(r.tls_duration)) + ","@ + decimal(micros(r.redirect_duration)) + ","@
        + decimal(micros(r.sending_duration)) + ","@ + decimal(micros(r.waiting_duration)) + ","@
        + decimal(micros(r.download_duration))
}

/// The heading of the table of results.
pub fn csv_heading() -> (r: String)
    ensures
        r@ == TABLE_HEADING@,
{
    TABLE_HEADING.to_owned()
}

/// Appends a comma and the microseconds of a duration.
fn append_micros(row: &mut String, nanos: u128)
    ensures
        final(row)@ == old(row)@ + ","@ + decimal(micros(nanos)),
{
    row.append(",");
    row.append(decimal_text(nanos / 1000).as_str());
}

/// The row of a result in the table.
pub fn csv_row(result: &HttpResult) -> (r: String)
    ensures
        r@ == table_row(result@),
{
    let mut row = result.start_timestamp.clone();
    row.append(",");
    row.append(result.response_status.as_str());
    row.append(",");
    row.append(result.group.as_str());
    row.append(",");
    row.append(result.flow.as_str());
    append_micros(&mut row, result.total_duration);
    append_micros(&mut row, result.dns_duration);
    append_micros(&mut row, result.connect_duration);
    append_micros(&mut row, result.tls_duration);
    append_micros(&mut row, result.redirect_duration);
    append_micros(&mut row, result.sending_duration);
    append_micros(&mut row, result.waiting_duration);
    append_micros(&mut row, result.download_duration);
    row
}

} // verus!
