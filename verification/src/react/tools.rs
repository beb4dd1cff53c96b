use vstd::prelude::*;

use crate::error::GraphError;
use crate::graph::edge::{Target, TargetView};
use crate::ident::{Key, NodeId};
use crate::react::system::texts;
use crate::state::kind::Kind;
use crate::state::state::{State, read_outcome};
use crate::state::value::{Datum, Value, data_of, lemma_data_of_index, lemma_data_of_len};

verus! {

/// How many times `name` occurs in `s`.
pub open spec fn count_name(s: Seq<Seq<char>>, name: Seq<char>) -> nat
    decreases s.len(),
{
    if s.len() == 0 {
        0
    } else {
        count_name(s.drop_last(), name) + if s.last() == name {
            1nat
        } else {
            0nat
        }
    }
}

/// The position of the first declared tool that the tool nodes do not hold
/// exactly once.
pub open spec fn first_unpartitioned(declared: Seq<Seq<char>>, covered: Seq<Seq<char>>) -> Option<
    int,
>
    decreases declared.len(),
{
    if declared.len() == 0 {
        None
    } else {
        match first_unpartitioned(declared.drop_last(), covered) {
            Some(i) => Some(i),
            None => if count_name(covered, declared.last()) != 1 {
                Some(declared.len() - 1)
            } else {
                None
            },
        }
    }
}

/// How many of the names are `name`.
fn count_of(names: &Vec<String>, name: &String) -> (r: usize)
    ensures
        r == count_name(texts(names@), name@),
{
    let ghost all = texts(names@);
    let n = names.len();
    let mut c: usize = 0;
    let mut i: usize = 0;
    while i < n
        invariant
            n == names@.len(),
            all == texts(names@),
            i <= n,
            c <= i,
            c == count_name(all.take(i as int), name@),
        decreases n - i,
    {
        proof {
            assert(all.take(i + 1).drop_last() =~= all.take(i as int));
            assert(all.take(i + 1).last() == names@[i as int]@);
        }
        if names[i] == *name {
            c = c + 1;
        }
        i = i + 1;
    }
    proof {
        assert(all.take(n as int) =~= all);
    }
    c
}

/// The position of the first held tool the model node does not declare.
pub open spec fn first_undeclared(covered: Seq<Seq<char>>, declared: Seq<Seq<char>>) -> Option<int> {
    if exists|i: int| 0 <= i < covered.len() && !declared.contains(#[trigger] covered[i]) {
        Some(
            choose|i: int|
                0 <= i < covered.len() && !declared.contains(#[trigger] covered[i]) && forall|j: int|
                    0 <= j < i ==> declared.contains(#[trigger] covered[j]),
        )
    } else {
        None
    }
}

/// Checks that the tool nodes of a loop share out the tools the model is
/// offered: every declared tool must be held by exactly one tool node, and
/// every held tool must be declared. `covered` names the tools every tool
/// node holds, node after node. The first declared tool that no node holds
/// is refused with `ToolNotCovered`, one that several hold with
/// `ToolCoveredTwice`; then the first held tool that is not declared with
/// `ToolNotDeclared`.
pub fn check_partition(covered: &Vec<String>, declared: &Vec<String>) -> (r: Result<(), GraphError>)
    ensures
        match first_unpartitioned(texts(declared@), texts(covered@)) {
            None => match first_undeclared(texts(covered@), texts(declared@)) {
                None => r is Ok,
                Some(i) => r matches Err(e) && (e matches GraphError::ToolNotDeclared { name } && name@
                    == covered@[i]@),
            },
            Some(i) => if count_name(texts(covered@), declared@[i]@) == 0 {
                r matches Err(e) && (e matches GraphError::ToolNotCovered { name } && name@
                    == declared@[i]@)
            } else {
                r matches Err(e) && (e matches GraphError::ToolCoveredTwice { name } && name@
                    == declared@[i]@)
            },
        },
{
    let ghost ds = texts(declared@);
    let ghost cs = texts(covered@);
    let n = declared.len();
    let mut i: usize = 0;
    while i < n
        invariant
            n == declared@.len(),
            ds == texts(declared@),
            cs == texts(covered@),
            i <= n,
            first_unpartitioned(ds.take(i as int), cs) is None,
        decreases n - i,
    {
        proof {
            assert(ds.take(i + 1).drop_last() =~= ds.take(i as int));
            assert(ds.take(i + 1).last() == declared@[i as int]@);
        }
        let c = count_of(covered, &declared[i]);
        if c != 1 {
            proof {
                lemma_unpartitioned_sticks(ds, cs, i as int + 1, i as int);
            }
            if c == 0 {
                return Err(GraphError::ToolNotCovered { name: declared[i].clone() });
            } else {
                return Err(GraphError::ToolCoveredTwice { name: declared[i].clone() });
            }
        }
        i = i + 1;
    }
    proof {
        assert(ds.take(n as int) =~= ds);
    }
    match first_missing_name(covered, declared) {
        Some(j) => Err(GraphError::ToolNotDeclared { name: covered[j].clone() }),
        None => Ok(()),
    }
}

/// Once a declared tool is found not shared out, longer prefixes find the
/// same one.
proof fn lemma_unpartitioned_sticks(ds: Seq<Seq<char>>, cs: Seq<Seq<char>>, j: int, k: int)
    requires
        0 <= j <= ds.len(),
        first_unpartitioned(ds.take(j), cs) == Some(k),
    ensures
        first_unpartitioned(ds, cs) == Some(k),
    decreases ds.len() - j,
{
    if j < ds.len() {
        assert(ds.take(j + 1).drop_last() =~= ds.take(j));
        lemma_unpartitioned_sticks(ds, cs, j + 1, k);
    } else {
        assert(ds.take(j) =~= ds);
    }
}

/// The texts of the string items of a list, in order; other items are
/// skipped.
pub open spec fn string_items<C>(items: Seq<Datum<C>>) -> Seq<Seq<char>>
    decreases items.len(),
{
    if items.len() == 0 {
        Seq::empty()
    } else {
        let r = string_items(items.drop_last());
        match items.last() {
            Datum::Str(t) => r.push(t),
            _ => r,
        }
    }
}

/// The positions of the names that `allowed` holds, in order.
pub open spec fn positions_in(names: Seq<Seq<char>>, allowed: Seq<Seq<char>>) -> Seq<usize>
    decreases names.len(),
{
    if names.len() == 0 {
        Seq::empty()
    } else {
        let r = positions_in(names.drop_last(), allowed);
        if allowed.contains(names.last()) {
            r.push((names.len() - 1) as usize)
        } else {
            r
        }
    }
}

/// The positions `0, 1, ..., n - 1`.
pub open spec fn all_positions(n: nat) -> Seq<usize> {
    Seq::new(n, |i: int| i as usize)
}

/// The list kind a missing key is read as.
pub open spec fn text_list_kind() -> Kind {
    Kind::List { element: Box::new(Kind::Str) }
}

/// Which of a model node's tools it declares to the model, by position:
/// all of them without an `enabled` key; otherwise those whose name is a
/// string item of the list under that key (other items are skipped). A key
/// that holds no list is refused as `State::list` refuses it.
pub fn declared_tools<C>(names: &Vec<String>, enabled: Option<&Key>, state: &State<C>) -> (r: Result<
    Vec<usize>,
    GraphError,
>)
    ensures
        match enabled {
            None => r matches Ok(v) && v@ == all_positions(names@.len()),
            Some(key) => if state.data().contains_key(key@) && state.data()[key@] is List {
                r matches Ok(v) && v@ == positions_in(
                    texts(names@),
                    string_items(state.data()[key@]->List_0),
                )
            } else {
                r matches Err(e) && read_outcome(
                    state.data(),
                    key@,
                    text_list_kind(),
                    if state.kinds().contains_key(key@) {
                        state.kinds()[key@]
                    } else {
                        text_list_kind()
                    },
                    Err::<Datum<C>, GraphError>(e),
                )
            },
        },
        (enabled matches Some(key) && state.data().contains_key(key@) && state.data()[key@] is List)
            ==> (r matches Ok(v) && crate::laws::declares_tools(
            texts(names@),
            state.data()[enabled->Some_0@]->List_0,
            v@,
        )),
{
    let n = names.len();
    let key = match enabled {
        None => {
            let mut all: Vec<usize> = Vec::new();
            let mut i: usize = 0;
            while i < n
                invariant
                    n == names@.len(),
                    i <= n,
                    all@ == all_positions(i as nat),
                decreases n - i,
            {
                all.push(i);
                assert(all@ =~= all_positions((i + 1) as nat));
                i = i + 1;
            }
            return Ok(all);
        },
        Some(key) => key,
    };
    let items = match state.list(key) {
        Ok(items) => items,
        Err(e) => {
            return Err(e);
        },
    };
    let ghost ds = data_of(items@);
    proof {
        lemma_data_of_len(items@);
    }
    let m = items.len();
    let mut allowed: Vec<&str> = Vec::new();
    let mut j: usize = 0;
    while j < m
        invariant
            m == items@.len(),
            ds == data_of(items@),
            ds.len() == m,
            j <= m,
            allowed@.map_values(|t: &str| t@) == string_items(ds.take(j as int)),
        decreases m - j,
    {
        proof {
            lemma_data_of_index(items@, j as int);
            assert(ds.take(j + 1).drop_last() =~= ds.take(j as int));
            assert(ds.take(j + 1).last() == ds[j as int]);
        }
        let ghost before = allowed@.map_values(|t: &str| t@);
        match &items[j] {
            Value::Str(text) => {
                allowed.push(text.as_str());
                assert(allowed@.map_values(|t: &str| t@) =~= before.push(text@));
            },
            _ => {},
        }
        j = j + 1;
    }
    proof {
        assert(ds.take(m as int) =~= ds);
    }
    let ghost allowed_names = allowed@.map_values(|t: &str| t@);
    let ghost ns = texts(names@);
    let mut chosen: Vec<usize> = Vec::new();
    let mut i: usize = 0;
    while i < n
        invariant
            n == names@.len(),
            ns == texts(names@),
            allowed_names == allowed@.map_values(|t: &str| t@),
            i <= n,
            chosen@ == positions_in(ns.take(i as int), allowed_names),
        decreases n - i,
    {
        proof {
            assert(ns.take(i + 1).drop_last() =~= ns.take(i as int));
            assert(ns.take(i + 1).last() == names@[i as int]@);
        }
        let name = names[i].as_str();
        let k = allowed.len();
        let mut found = false;
        let mut q: usize = 0;
        while q < k
            invariant
                k == allowed@.len(),
                allowed_names == allowed@.map_values(|t: &str| t@),
                q <= k,
                found == exists|x: int| 0 <= x < q && #[trigger] allowed_names[x] == name@,
            decreases k - q,
        {
            proof {
                assert(allowed_names[q as int] == allowed@[q as int]@);
            }
            if str_eq(allowed[q], name) {
                found = true;
            }
            q = q + 1;
        }
        proof {
            if found {
                let x = choose|x: int| 0 <= x < k && #[trigger] allowed_names[x] == name@;
                assert(allowed_names.contains(name@));
            } else {
                assert(!allowed_names.contains(name@));
            }
        }
        if found {
            chosen.push(i);
        }
        i = i + 1;
    }
    proof {
        assert(ns.take(n as int) =~= ns);
        assert(ns.len() == n);
        crate::laws::law_declared_tools(ns, ds);
    }
    Ok(chosen)
}

/// Picks, by position, the tool calls a turn still waits for: those whose
/// id is among the pending ids, in the order the calls were made.
pub fn pending_positions(call_ids: &Vec<String>, pending: &Vec<String>) -> (r: Vec<usize>)
    ensures
        r@ == positions_in(texts(call_ids@), texts(pending@)),
{
    let ghost ns = texts(call_ids@);
    let n = call_ids.len();
    let mut chosen: Vec<usize> = Vec::new();
    let mut i: usize = 0;
    while i < n
        invariant
            n == call_ids@.len(),
            ns == texts(call_ids@),
            i <= n,
            chosen@ == positions_in(ns.take(i as int), texts(pending@)),
        decreases n - i,
    {
        proof {
            assert(ns.take(i + 1).drop_last() =~= ns.take(i as int));
            assert(ns.take(i + 1).last() == call_ids@[i as int]@);
        }
        let found = find_name(pending, &call_ids[i], false);
        proof {
            lemma_named_in_range(texts(pending@), call_ids@[i as int]@);
            lemma_first_named_contains(texts(pending@), call_ids@[i as int]@);
        }
        if found.is_some() {
            chosen.push(i);
        }
        i = i + 1;
    }
    proof {
        assert(ns.take(n as int) =~= ns);
    }
    chosen
}

/// A name is found exactly when the names hold it.
pub proof fn lemma_first_named_contains(names: Seq<Seq<char>>, name: Seq<char>)
    ensures
        first_named(names, name) is Some <==> names.contains(name),
    decreases names.len(),
{
    if names.len() > 0 {
        let t = names.drop_last();
        lemma_first_named_contains(t, name);
        if names.contains(name) && !t.contains(name) {
            let w = choose|w: int| 0 <= w < names.len() && names[w] == name;
            if w < t.len() {
                assert(t[w] == name);
            }
        }
        if t.contains(name) {
            let w = choose|w: int| 0 <= w < t.len() && t[w] == name;
            assert(names[w] == name);
        }
    }
}

/// Whether two texts are equal.
fn str_eq(a: &str, b: &str) -> (r: bool)
    ensures
        r == (a@ == b@),
{
    let la = a.unicode_len();
    let lb = b.unicode_len();
    if la != lb {
        return false;
    }
    let mut i: usize = 0;
    while i < la
        invariant
            la == a@.len(),
            lb == b@.len(),
            la == lb,
            i <= la,
            forall|j: int| 0 <= j < i ==> a@[j] == b@[j],
        decreases la - i,
    {
        if a.get_char(i) != b.get_char(i) {
            return false;
        }
        i = i + 1;
    }
    assert(a@ =~= b@);
    true
}

/// The position of the first name equal to `name`.
pub open spec fn first_named(names: Seq<Seq<char>>, name: Seq<char>) -> Option<int>
    decreases names.len(),
{
    if names.len() == 0 {
        None
    } else {
        match first_named(names.drop_last(), name) {
            Some(i) => Some(i),
            None => if names.last() == name {
                Some(names.len() - 1)
            } else {
                None
            },
        }
    }
}

/// The position of the last name equal to `name`.
pub open spec fn last_named(names: Seq<Seq<char>>, name: Seq<char>) -> Option<int>
    decreases names.len(),
{
    if names.len() == 0 {
        None
    } else if names.last() == name {
        Some(names.len() - 1)
    } else {
        last_named(names.drop_last(), name)
    }
}

/// A position as a `usize`.
pub open spec fn as_position(o: Option<int>) -> Option<usize> {
    match o {
        Some(i) => Some(i as usize),
        None => None,
    }
}

/// The first (or, with `last`, the last) position of `name` among the names.
fn find_name(names: &Vec<String>, name: &String, last: bool) -> (r: Option<usize>)
    ensures
        r == as_position(
            if last {
                last_named(texts(names@), name@)
            } else {
                first_named(texts(names@), name@)
            },
        ),
{
    let ghost all = texts(names@);
    let n = names.len();
    let mut found: Option<usize> = None;
    let mut i: usize = 0;
    while i < n
        invariant
            n == names@.len(),
            all == texts(names@),
            i <= n,
            found == as_position(
                if last {
                    last_named(all.take(i as int), name@)
                } else {
                    first_named(all.take(i as int), name@)
                },
            ),
        decreases n - i,
    {
        proof {
            assert(all.take(i + 1).drop_last() =~= all.take(i as int));
            assert(all.take(i + 1).last() == names@[i as int]@);
        }
        if names[i] == *name && (last || found.is_none()) {
            found = Some(i);
        }
        i = i + 1;
    }
    proof {
        assert(all.take(n as int) =~= all);
    }
    found
}

/// The positions of the calls to tools that the registry marks as unsafe:
/// the first tool of the registry with the call's name decides; a call no
/// tool is named for is left out.
pub open spec fn unsafe_positions(calls: Seq<Seq<char>>, names: Seq<Seq<char>>, safe: Seq<bool>) -> Seq<
    usize,
>
    decreases calls.len(),
{
    if calls.len() == 0 {
        Seq::empty()
    } else {
        let r = unsafe_positions(calls.drop_last(), names, safe);
        match first_named(names, calls.last()) {
            Some(k) => if !safe[k] {
                r.push((calls.len() - 1) as usize)
            } else {
                r
            },
            None => r,
        }
    }
}

/// Picks, by position, the pending calls to tools that are not safe; the
/// registry gives each tool's name and whether it is safe.
pub fn unsafe_calls(calls: &Vec<String>, names: &Vec<String>, safe: &Vec<bool>) -> (r: Vec<usize>)
    requires
        safe@.len() == names@.len(),
    ensures
        r@ == unsafe_positions(texts(calls@), texts(names@), safe@),
{
    let ghost all = texts(calls@);
    let n = calls.len();
    let nn = names.len();
    let mut r: Vec<usize> = Vec::new();
    let mut i: usize = 0;
    while i < n
        invariant
            n == calls@.len(),
            nn == names@.len(),
            all == texts(calls@),
            safe@.len() == names@.len(),
            i <= n,
            r@ == unsafe_positions(all.take(i as int), texts(names@), safe@),
        decreases n - i,
    {
        proof {
            assert(all.take(i + 1).drop_last() =~= all.take(i as int));
            assert(all.take(i + 1).last() == calls@[i as int]@);
        }
        proof {
            lemma_named_in_range(texts(names@), calls@[i as int]@);
        }
        let ghost before = r@;
        match find_name(names, &calls[i], false) {
            Some(k) => {
                proof {
                    let f = first_named(texts(names@), calls@[i as int]@);
                    assert(as_position(f) == Some(k));
                    assert(f is Some);
                    let x = f->Some_0;
                    assert(0 <= x < names@.len());
                    assert(x as usize == k);
                    assert(f == Some(k as int));
                }
                if !safe[k] {
                    r.push(i);
                    assert(r@ == before.push((all.take(i + 1).len() - 1) as usize));
                }
            },
            None => {},
        }
        i = i + 1;
    }
    proof {
        assert(all.take(n as int) =~= all);
    }
    r
}

/// A found name is at a position of the names, and is that name.
pub proof fn lemma_named_in_range(names: Seq<Seq<char>>, name: Seq<char>)
    ensures
        first_named(names, name) matches Some(k) ==> 0 <= k < names.len() && names[k] == name,
        last_named(names, name) matches Some(k) ==> 0 <= k < names.len() && names[k] == name,
    decreases names.len(),
{
    if names.len() > 0 {
        lemma_named_in_range(names.drop_last(), name);
    }
}

/// The calls a tool node makes, as pairs of positions: for each call, in
/// order, the last of the node's tools named as the call, if any.
pub open spec fn owned_pairs(calls: Seq<Seq<char>>, names: Seq<Seq<char>>) -> Seq<(usize, usize)>
    decreases calls.len(),
{
    if calls.len() == 0 {
        Seq::empty()
    } else {
        let r = owned_pairs(calls.drop_last(), names);
        match last_named(names, calls.last()) {
            Some(k) => r.push(((calls.len() - 1) as usize, k as usize)),
            None => r,
        }
    }
}

/// Pairs each pending call with the tool of the node that takes it: the
/// last tool with the call's name; calls no tool of the node is named for
/// are left to other nodes.
pub fn owned_calls(calls: &Vec<String>, names: &Vec<String>) -> (r: Vec<(usize, usize)>)
    ensures
        r@ == owned_pairs(texts(calls@), texts(names@)),
{
    let ghost all = texts(calls@);
    let n = calls.len();
    let mut r: Vec<(usize, usize)> = Vec::new();
    let mut i: usize = 0;
    while i < n
        invariant
            n == calls@.len(),
            all == texts(calls@),
            i <= n,
            r@ == owned_pairs(all.take(i as int), texts(names@)),
        decreases n - i,
    {
        proof {
            assert(all.take(i + 1).drop_last() =~= all.take(i as int));
            assert(all.take(i + 1).last() == calls@[i as int]@);
            lemma_named_in_range(texts(names@), calls@[i as int]@);
        }
        match find_name(names, &calls[i], true) {
            Some(k) => {
                r.push((i, k));
            },
            None => {},
        }
        i = i + 1;
    }
    proof {
        assert(all.take(n as int) =~= all);
    }
    r
}

/// The position of the last `true` flag.
pub open spec fn last_true(flags: Seq<bool>) -> Option<int>
    decreases flags.len(),
{
    if flags.len() == 0 {
        None
    } else if flags.last() {
        Some(flags.len() - 1)
    } else {
        last_true(flags.drop_last())
    }
}

/// The position of the last turn by an author, where `by_author` flags,
/// for each entry of a conversation, whether it is a turn by that author.
pub fn last_turn_position(by_author: &Vec<bool>) -> (r: Option<usize>)
    ensures
        r == as_position(last_true(by_author@)),
{
    let n = by_author.len();
    let mut i: usize = n;
    assert(by_author@.take(n as int) =~= by_author@);
    while i > 0
        invariant
            n == by_author@.len(),
            i <= n,
            last_true(by_author@) == last_true(by_author@.take(i as int)),
        decreases i,
    {
        proof {
            assert(by_author@.take(i as int).drop_last() =~= by_author@.take(i - 1));
        }
        if by_author[i - 1] {
            return Some(i - 1);
        }
        i = i - 1;
    }
    None
}

/// Where the edge from a model node leads. When the model's last turn
/// awaits tool results (`pending` names the tools it called), to every tool
/// node, provided some tool node runs each called tool (`held` names the
/// tools the tool nodes run); the first call no tool node can take is
/// refused with `PendingToolUnsatisfiable`. Otherwise, to `after`.
pub fn llm_edge_targets(
    tool_nodes: &Vec<NodeId>,
    held: &Vec<String>,
    after: &Target,
    pending: Option<&Vec<String>>,
) -> (r: Result<Vec<Target>, GraphError>)
    ensures
        match pending {
            None => r matches Ok(v) && v@.len() == 1 && v@[0]@ == after@,
            Some(calls) => match first_undeclared(texts(calls@), texts(held@)) {
                Some(i) => r matches Err(e) && (e matches GraphError::PendingToolUnsatisfiable {
                    name,
                } && name@ == calls@[i]@),
                None => r matches Ok(v) && v@.len() == tool_nodes@.len() && forall|i: int|
                    0 <= i < v@.len() ==> #[trigger] v@[i]@ == TargetView::Node(tool_nodes@[i]@),
            },
        },
{
    let mut r: Vec<Target> = Vec::new();
    match pending {
        None => {
            r.push(after.clone());
            Ok(r)
        },
        Some(calls) => {
            match first_missing_name(calls, held) {
                Some(i) => {
                    return Err(GraphError::PendingToolUnsatisfiable { name: calls[i].clone() });
                },
                None => {},
            }
            let n = tool_nodes.len();
            let mut i: usize = 0;
            while i < n
                invariant
                    n == tool_nodes@.len(),
                    i <= n,
                    r@.len() == i,
                    forall|j: int| 0 <= j < i ==> #[trigger] r@[j]@ == TargetView::Node(tool_nodes@[j]@),
                decreases n - i,
            {
                r.push(Target::Node(tool_nodes[i].clone()));
                i = i + 1;
            }
            Ok(r)
        },
    }
}

/// The position of the first of the names that `among` lacks (see
/// `first_undeclared`).
fn first_missing_name(names: &Vec<String>, among: &Vec<String>) -> (r: Option<usize>)
    ensures
        match r {
            Some(j) => j < names@.len() && first_undeclared(texts(names@), texts(among@)) == Some(
                j as int,
            ),
            None => first_undeclared(texts(names@), texts(among@)) is None,
        },
{
    let ghost ns = texts(names@);
    let ghost am = texts(among@);
    let m = names.len();
    let mut j: usize = 0;
    while j < m
        invariant
            m == names@.len(),
            ns == texts(names@),
            am == texts(among@),
            j <= m,
            forall|x: int| 0 <= x < j ==> am.contains(#[trigger] ns[x]),
        decreases m - j,
    {
        let found = find_name(among, &names[j], false);
        proof {
            lemma_first_named_contains(am, ns[j as int]);
            assert(ns[j as int] == names@[j as int]@);
        }
        if found.is_none() {
            proof {
                let w = j as int;
                assert(0 <= w < ns.len() && !am.contains(ns[w]));
                let c = choose|i: int|
                    0 <= i < ns.len() && !am.contains(#[trigger] ns[i]) && forall|k: int|
                        0 <= k < i ==> am.contains(#[trigger] ns[k]);
                assert(c == w) by {
                    if c < w {
                        assert(am.contains(ns[c]));
                    } else if c > w {
                        assert(am.contains(ns[w]));
                    }
                }
            }
            return Some(j);
        }
        j = j + 1;
    }
    None
}

/// The updates a tool node gives, call after call: for a call whose tool
/// gave an output, its result and then the output's own updates; for a
/// call whose tool failed, its error result.
pub open spec fn call_updates<U>(outcomes: Seq<Result<(U, Vec<U>), U>>) -> Seq<U>
    decreases outcomes.len(),
{
    if outcomes.len() == 0 {
        Seq::empty()
    } else {
        call_updates(outcomes.drop_last()) + match outcomes.last() {
            Ok(pair) => seq![pair.0] + pair.1@,
            Err(u) => seq![u],
        }
    }
}

/// Gathers the updates of a tool node's calls, in call order (see
/// `call_updates`).
pub fn gather_call_updates<U>(outcomes: Vec<Result<(U, Vec<U>), U>>) -> (r: Vec<U>)
    ensures
        r@ == call_updates(outcomes@),
{
    let ghost all = outcomes@;
    let mut out: Vec<U> = Vec::new();
    let mut rest = outcomes;
    let n = rest.len();
    let mut i: usize = 0;
    proof {
        assert(rest@ =~= all.skip(0));
        assert(all.take(0) =~= Seq::<Result<(U, Vec<U>), U>>::empty());
    }
    while i < n
        invariant
            n == all.len(),
            i <= n,
            rest@ == all.skip(i as int),
            out@ == call_updates(all.take(i as int)),
        decreases n - i,
    {
        let outcome = rest.remove(0);
        proof {
            assert(rest@ =~= all.skip(i + 1));
            assert(outcome == all[i as int]);
            assert(all.take(i + 1).drop_last() =~= all.take(i as int));
            assert(all.take(i + 1).last() == all[i as int]);
        }
        let ghost before = out@;
        match outcome {
            Ok((result, updates)) => {
                let ghost extra = updates@;
                out.push(result);
                let mut updates = updates;
                out.append(&mut updates);
                assert(out@ =~= before + (seq![all[i as int]->Ok_0.0] + extra));
            },
            Err(result) => {
                out.push(result);
                assert(out@ =~= before + seq![result]);
            },
        }
        i = i + 1;
    }
    proof {
        assert(all.take(n as int) =~= all);
    }
    out
}

} // verus!
