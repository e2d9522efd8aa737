//! What the front end reads from the host on each frame, and the decisions
//! it takes from that alone: the root menu, which entities can answer a
//! plugin's request, and how a chosen entity answers it.

use vstd::prelude::*;
use crate::text::{decimal, decimal_text, has_prefix, starts_with};

verus! {

/// An entity that a plugin registered with the host.
#[derive(Debug, Clone, Copy, PartialEq, Eq, Structural)]
pub enum EntityId {
    Page(u64),
    EthProvider(u64),
    Vault(u64),
    Coordinator(u64),
}

/// A plugin's request that the user picks an entity for it.
#[derive(Debug, Clone, Copy, PartialEq, Eq, Structural)]
pub enum UserRequest {
    EthProviderSelection { id: u64, plugin_id: u64, chain_id: u64 },
    VaultSelection { id: u64, plugin_id: u64 },
    CoordinatorSelection { id: u64, plugin_id: u64 },
}

impl UserRequest {
    /// The request's own id.
    pub open spec fn request_id(self) -> u64 {
        match self {
            UserRequest::EthProviderSelection { id, .. } => id,
            UserRequest::VaultSelection { id, .. } => id,
            UserRequest::CoordinatorSelection { id, .. } => id,
        }
    }

    /// The id of the plugin that made the request.
    pub open spec fn requester(self) -> u64 {
        match self {
            UserRequest::EthProviderSelection { plugin_id, .. } => plugin_id,
            UserRequest::VaultSelection { plugin_id, .. } => plugin_id,
            UserRequest::CoordinatorSelection { plugin_id, .. } => plugin_id,
        }
    }

    /// The request's own id.
    pub fn id(&self) -> (r: u64)
        ensures
            r == self.request_id(),
    {
        match self {
            UserRequest::EthProviderSelection { id, .. } => *id,
            UserRequest::VaultSelection { id, .. } => *id,
            UserRequest::CoordinatorSelection { id, .. } => *id,
        }
    }

    /// The id of the plugin that made the request.
    pub fn plugin_id(&self) -> (r: u64)
        ensures
            r == self.requester(),
    {
        match self {
            UserRequest::EthProviderSelection { plugin_id, .. } => *plugin_id,
            UserRequest::VaultSelection { plugin_id, .. } => *plugin_id,
            UserRequest::CoordinatorSelection { plugin_id, .. } => *plugin_id,
        }
    }
}

/// How the host is told that a request was answered.
#[derive(Debug, Clone, Copy, PartialEq, Eq, Structural)]
pub enum Resolution {
    EthProvider { request: u64, provider: u64 },
    Vault { request: u64, vault: u64 },
    Coordinator { request: u64, coordinator: u64 },
}

/// An entity together with the name of the plugin that owns it, if the host
/// knows it.
#[derive(Debug)]
pub struct HostEntity {
    pub id: EntityId,
    pub owner: Option<String>,
}

/// What the front end reads from the host: how many events it logged, the
/// open requests, and the registered entities in the host's order.
#[derive(Debug)]
pub struct HostView {
    pub event_count: usize,
    pub requests: Vec<UserRequest>,
    pub entities: Vec<HostEntity>,
}

/// The text of an optional owner name.
pub open spec fn name_view(o: Option<String>) -> Option<Seq<char>> {
    match o {
        Some(s) => Some(s@),
        None => None,
    }
}

impl View for HostEntity {
    type V = (EntityId, Option<Seq<char>>);

    open spec fn view(&self) -> (EntityId, Option<Seq<char>>) {
        (self.id, name_view(self.owner))
    }
}

/// The host as the front end sees it.
pub struct HostState {
    pub event_count: nat,
    pub requests: Seq<UserRequest>,
    pub entities: Seq<(EntityId, Option<Seq<char>>)>,
}

impl View for HostView {
    type V = HostState;

    open spec fn view(&self) -> HostState {
        HostState {
            event_count: self.event_count as nat,
            requests: self.requests@,
            entities: self.entities@.map_values(|e: HostEntity| e@),
        }
    }
}

/// The entity can answer the request.
pub open spec fn serves(e: EntityId, r: UserRequest) -> bool {
    match r {
        UserRequest::EthProviderSelection { .. } => e is EthProvider,
        UserRequest::VaultSelection { .. } => e is Vault,
        UserRequest::CoordinatorSelection { .. } => e is Coordinator,
    }
}

/// The entities that can answer a request, in the host's order.
pub open spec fn candidates(es: Seq<(EntityId, Option<Seq<char>>)>, r: UserRequest) -> Seq<EntityId>
    decreases es.len(),
{
    if es.len() == 0 {
        Seq::empty()
    } else {
        let rest = candidates(es.drop_last(), r);
        if serves(es.last().0, r) {
            rest.push(es.last().0)
        } else {
            rest
        }
    }
}

/// There are no more candidates than entities.
pub proof fn lemma_candidates_len(es: Seq<(EntityId, Option<Seq<char>>)>, r: UserRequest)
    ensures
        candidates(es, r).len() <= es.len(),
    decreases es.len(),
{
    if es.len() > 0 {
        lemma_candidates_len(es.drop_last(), r);
    }
}

/// How an entity answers a request; `None` when it is of the wrong kind.
pub open spec fn resolution(r: UserRequest, e: EntityId) -> Option<Resolution> {
    match (r, e) {
        (UserRequest::EthProviderSelection { id, .. }, EntityId::EthProvider(p)) => Some(
            Resolution::EthProvider { request: id, provider: p },
        ),
        (UserRequest::VaultSelection { id, .. }, EntityId::Vault(v)) => Some(
            Resolution::Vault { request: id, vault: v },
        ),
        (UserRequest::CoordinatorSelection { id, .. }, EntityId::Coordinator(c)) => Some(
            Resolution::Coordinator { request: id, coordinator: c },
        ),
        _ => None,
    }
}

/// The entities that can answer `request`, in the host's order.
pub fn candidate_entities(host: &HostView, request: &UserRequest) -> (r: Vec<EntityId>)
    ensures
        r@ == candidates(host@.entities, *request),
{
    let ghost es = host@.entities;
    let mut r: Vec<EntityId> = Vec::new();
    for i in 0..host.entities.len()
        invariant
            es == host@.entities,
            r@ == candidates(es.subrange(0, i as int), *request),
    {
        proof {
            assert(es.subrange(0, i + 1).drop_last() =~= es.subrange(0, i as int));
        }
        let e = host.entities[i].id;
        let fits = match request {
            UserRequest::EthProviderSelection { .. } => matches!(e, EntityId::EthProvider(_)),
            UserRequest::VaultSelection { .. } => matches!(e, EntityId::Vault(_)),
            UserRequest::CoordinatorSelection { .. } => matches!(e, EntityId::Coordinator(_)),
        };
        if fits {
            r.push(e);
        }
    }
    assert(es.subrange(0, es.len() as int) =~= es);
    r
}

/// How `entity` answers `request`; `None` when it is of the wrong kind.
pub fn resolve_request(request: &UserRequest, entity: &EntityId) -> (r: Option<Resolution>)
    ensures
        r == resolution(*request, *entity),
{
    match (request, entity) {
        (UserRequest::EthProviderSelection { id, .. }, EntityId::EthProvider(provider_id)) => Some(
            Resolution::EthProvider { request: *id, provider: *provider_id },
        ),
        (UserRequest::VaultSelection { id, .. }, EntityId::Vault(vault_id)) => Some(
            Resolution::Vault { request: *id, vault: *vault_id },
        ),
        (UserRequest::CoordinatorSelection { id, .. }, EntityId::Coordinator(coord_id)) => Some(
            Resolution::Coordinator { request: *id, coordinator: *coord_id },
        ),
        _ => None,
    }
}

/// The answers that need no choice: each request that exactly one entity
/// can answer is answered by it, in the order of the requests.
pub open spec fn automatic(h: HostState, n: int) -> Seq<Resolution>
    decreases n,
{
    if n <= 0 {
        Seq::empty()
    } else {
        let rest = automatic(h, n - 1);
        let r = h.requests[n - 1];
        let c = candidates(h.entities, r);
        if c.len() == 1 && resolution(r, c[0]) is Some {
            rest.push(resolution(r, c[0]).unwrap())
        } else {
            rest
        }
    }
}

/// The requests that exactly one entity can answer, answered by it.
pub fn auto_resolutions(host: &HostView) -> (r: Vec<Resolution>)
    ensures
        r@ == automatic(host@, host@.requests.len() as int),
{
    let mut r: Vec<Resolution> = Vec::new();
    for i in 0..host.requests.len()
        invariant
            r@ == automatic(host@, i as int),
    {
        let req = host.requests[i];
        let c = candidate_entities(host, &req);
        if c.len() == 1 {
            match resolve_request(&req, &c[0]) {
                Some(res) => r.push(res),
                None => {},
            }
        }
    }
    r
}

/// Every candidate of a request can answer it.
pub proof fn lemma_candidates_serve(es: Seq<(EntityId, Option<Seq<char>>)>, r: UserRequest)
    ensures
        forall|k: int|
            0 <= k < candidates(es, r).len() ==> serves(#[trigger] candidates(es, r)[k], r)
                && resolution(r, candidates(es, r)[k]) is Some,
    decreases es.len(),
{
    if es.len() > 0 {
        lemma_candidates_serve(es.drop_last(), r);
    }
}

/// Going through the requests in order, a request that exactly one entity
/// can answer is answered by that entity, and a request with no candidate
/// or with several is left for the user: it adds no answer.
pub proof fn law_single_candidates_answered(h: HostState, i: int)
    requires
        0 <= i < h.requests.len(),
    ensures
        candidates(h.entities, h.requests[i]).len() == 1 ==> resolution(
            h.requests[i],
            candidates(h.entities, h.requests[i])[0],
        ) is Some && automatic(h, i + 1) == automatic(h, i).push(
            resolution(h.requests[i], candidates(h.entities, h.requests[i])[0]).unwrap(),
        ),
        candidates(h.entities, h.requests[i]).len() != 1 ==> automatic(h, i + 1) == automatic(
            h,
            i,
        ),
{
    lemma_candidates_serve(h.entities, h.requests[i]);
}

/// The plugin that owns an entity: the owner recorded with the first entity
/// of the host that has this id; nothing when the host has no such entity.
pub open spec fn owner_of(es: Seq<(EntityId, Option<Seq<char>>)>, e: EntityId) -> Option<Seq<char>>
    decreases es.len(),
{
    if es.len() == 0 {
        None
    } else if es[0].0 == e {
        es[0].1
    } else {
        owner_of(es.drop_first(), e)
    }
}

/// The name of the plugin that owns `entity`, if the host knows it.
pub fn entity_owner(host: &HostView, entity: &EntityId) -> (r: Option<String>)
    ensures
        name_view(r) == owner_of(host@.entities, *entity),
{
    let ghost es = host@.entities;
    let n = host.entities.len();
    let mut i: usize = 0;
    assert(es.subrange(0, n as int) =~= es);
    while i < n
        invariant
            es == host@.entities,
            n == es.len(),
            i <= n,
            owner_of(es.subrange(i as int, n as int), *entity) == owner_of(es, *entity),
        decreases n - i,
    {
        proof {
            assert(es.subrange(i as int, n as int).drop_first() =~= es.subrange(i + 1, n as int));
            assert(es.subrange(i as int, n as int)[0] == es[i as int]);
        }
        if host.entities[i].id == *entity {
            return match &host.entities[i].owner {
                Some(name) => Some(name.clone()),
                None => None,
            };
        }
        i = i + 1;
    }
    None
}

// --- Root menu -------------------------------------------------------------------

/// The row that heads the list of pages in the root menu.
pub open spec fn separator() -> Seq<char> {
    "\u{2500}\u{2500}\u{2500} Pages \u{2500}\u{2500}\u{2500}\u{2500}\u{2500}\u{2500}\u{2500}\u{2500}\u{2500}\u{2500}\u{2500}\u{2500}\u{2500}\u{2500}\u{2500}\u{2500}\u{2500}\u{2500}\u{2500}\u{2500}\u{2500}\u{2500}\u{2500}\u{2500}\u{2500}\u{2500}\u{2500}\u{2500}\u{2500}\u{2500}\u{2500}\u{2500}\u{2500}\u{2500}\u{2500}"@
}

/// Rows that begin with this are not selectable.
pub open spec fn rule() -> Seq<char> {
    "\u{2500}\u{2500}\u{2500}"@
}

/// The name shown for an owner: the plugin's name, or `unknown`.
pub open spec fn owner_text(o: Option<Seq<char>>) -> Seq<char> {
    match o {
        Some(n) => n,
        None => "unknown"@,
    }
}

/// The owner names of the page entities, in the host's order.
pub open spec fn page_names(es: Seq<(EntityId, Option<Seq<char>>)>) -> Seq<Seq<char>>
    decreases es.len(),
{
    if es.len() == 0 {
        Seq::empty()
    } else {
        let rest = page_names(es.drop_last());
        if es.last().0 is Page {
            rest.push(owner_text(es.last().1))
        } else {
            rest
        }
    }
}

/// The ids of the page entities, in the host's order.
pub open spec fn page_ids(es: Seq<(EntityId, Option<Seq<char>>)>) -> Seq<u64>
    decreases es.len(),
{
    if es.len() == 0 {
        Seq::empty()
    } else {
        let rest = page_ids(es.drop_last());
        match es.last().0 {
            EntityId::Page(p) => rest.push(p),
            _ => rest,
        }
    }
}

/// The number of page entities.
pub open spec fn page_count(es: Seq<(EntityId, Option<Seq<char>>)>) -> nat
    decreases es.len(),
{
    if es.len() == 0 {
        0
    } else {
        page_count(es.drop_last()) + if es.last().0 is Page {
            1nat
        } else {
            0nat
        }
    }
}

/// The `k`-th page listed in the root menu and the `k`-th page id come from
/// the same entity: the `k`-th page entity of the host, whose owner's name
/// is the one listed.
pub proof fn lemma_page_rows_match_ids(es: Seq<(EntityId, Option<Seq<char>>)>)
    ensures
        page_names(es).len() == page_count(es),
        page_ids(es).len() == page_count(es),
        forall|k: int|
            0 <= k < page_count(es) ==> exists|j: int|
                0 <= j < es.len() && es[j].0 == EntityId::Page(#[trigger] page_ids(es)[k])
                    && page_names(es)[k] == owner_text(es[j].1) && page_count(es.take(j)) == k,
    decreases es.len(),
{
    if es.len() > 0 {
        let init = es.drop_last();
        lemma_page_rows_match_ids(init);
        let n = es.len() - 1;
        assert forall|k: int| 0 <= k < page_count(es) implies exists|j: int|
            0 <= j < es.len() && es[j].0 == EntityId::Page(#[trigger] page_ids(es)[k])
                && page_names(es)[k] == owner_text(es[j].1) && page_count(es.take(j)) == k by {
            if k < page_count(init) {
                let j = choose|j: int|
                    0 <= j < init.len() && init[j].0 == EntityId::Page(#[trigger] page_ids(init)[k])
                        && page_names(init)[k] == owner_text(init[j].1) && page_count(init.take(j))
                        == k;
                assert(init.take(j) =~= es.take(j));
                assert(es[j] == init[j]);
            } else {
                assert(es.take(n) =~= init);
                assert(es[n].0 is Page);
            }
        }
    }
}

/// The rows of the root menu: loading a plugin, the events and the requests
/// with their counts, then, if there are pages, a heading and the name of
/// each page's plugin.
pub open spec fn root_rows(h: HostState) -> Seq<Seq<char>> {
    seq![
        "Load Plugin"@,
        "Events ("@ + decimal(h.event_count) + ")"@,
        "Requests ("@ + decimal(h.requests.len()) + ")"@,
    ] + if page_names(h.entities).len() == 0 {
        Seq::<Seq<char>>::empty()
    } else {
        seq![separator()] + page_names(h.entities)
    }
}

/// The positions of the rows that the cursor can rest on, in order.
pub open spec fn selectable(rows: Seq<Seq<char>>) -> Seq<usize>
    decreases rows.len(),
{
    if rows.len() == 0 {
        Seq::empty()
    } else {
        let rest = selectable(rows.drop_last());
        if has_prefix(rows.last(), rule()) {
            rest
        } else {
            rest.push((rows.len() - 1) as usize)
        }
    }
}

/// Every selectable position is a row.
pub proof fn lemma_selectable_rows(rows: Seq<Seq<char>>)
    ensures
        forall|k: int| 0 <= k < selectable(rows).len() ==> #[trigger] selectable(rows)[k] < rows.len(),
    decreases rows.len(),
{
    if rows.len() > 0 {
        lemma_selectable_rows(rows.drop_last());
        let rest = selectable(rows.drop_last());
        assert forall|k: int| 0 <= k < selectable(rows).len() implies #[trigger] selectable(
            rows,
        )[k] < rows.len() by {
            if k < rest.len() {
                assert(rest[k] < rows.len() - 1);
            }
        }
    }
}

/// The selectable positions come in increasing order.
pub proof fn lemma_selectable_increasing(rows: Seq<Seq<char>>)
    requires
        rows.len() <= usize::MAX,
    ensures
        forall|i: int, j: int|
            0 <= i < j < selectable(rows).len() ==> #[trigger] selectable(rows)[i]
                < #[trigger] selectable(rows)[j],
    decreases rows.len(),
{
    if rows.len() > 0 {
        let rest = selectable(rows.drop_last());
        lemma_selectable_increasing(rows.drop_last());
        lemma_selectable_rows(rows.drop_last());
        assert forall|i: int, j: int|
            0 <= i < j < selectable(rows).len() implies #[trigger] selectable(rows)[i]
                < #[trigger] selectable(rows)[j] by {
            if has_prefix(rows.last(), rule()) {
                assert(selectable(rows) == rest);
            } else {
                assert(selectable(rows) == rest.push((rows.len() - 1) as usize));
                if j >= rest.len() {
                    assert(rest[i] < rows.len() - 1);
                } else {
                    assert(selectable(rows)[i] == rest[i]);
                    assert(selectable(rows)[j] == rest[j]);
                }
            }
        }
    }
}

/// The text views of a list of strings.
pub open spec fn texts(v: Seq<String>) -> Seq<Seq<char>> {
    v.map_values(|s: String| s@)
}

/// The rows of the root menu.
pub fn root_items(host: &HostView) -> (r: Vec<String>)
    ensures
        texts(r@) == root_rows(host@),
{
    let ghost es = host@.entities;
    let mut names: Vec<String> = Vec::new();
    for i in 0..host.entities.len()
        invariant
            es == host@.entities,
            texts(names@) == page_names(es.subrange(0, i as int)),
    {
        proof {
            assert(es.subrange(0, i + 1).drop_last() =~= es.subrange(0, i as int));
        }
        if let EntityId::Page(_) = host.entities[i].id {
            let name = match &host.entities[i].owner {
                Some(n) => n.clone(),
                None => String::from_str("unknown"),
            };
            names.push(name);
            assert(texts(names@) =~= page_names(es.subrange(0, i + 1)));
        }
    }
    assert(es.subrange(0, es.len() as int) =~= es);
    let mut items = vec![
        String::from_str("Load Plugin"),
        String::from_str("Events (").concat(decimal_text(host.event_count as u64).as_str()).concat(")"),
        String::from_str("Requests (").concat(decimal_text(host.requests.len() as u64).as_str()).concat(
            ")",
        ),
    ];
    let ghost head = texts(items@);
    if names.len() > 0 {
        items.push(String::from_str(
            "\u{2500}\u{2500}\u{2500} Pages \u{2500}\u{2500}\u{2500}\u{2500}\u{2500}\u{2500}\u{2500}\u{2500}\u{2500}\u{2500}\u{2500}\u{2500}\u{2500}\u{2500}\u{2500}\u{2500}\u{2500}\u{2500}\u{2500}\u{2500}\u{2500}\u{2500}\u{2500}\u{2500}\u{2500}\u{2500}\u{2500}\u{2500}\u{2500}\u{2500}\u{2500}\u{2500}\u{2500}\u{2500}\u{2500}",
        ));
        let ghost with_sep = texts(items@);
        items.append(&mut names);
        assert(texts(items@) =~= with_sep + page_names(es));
    }
    assert(texts(items@) =~= root_rows(host@));
    items
}

/// The positions of the root menu rows that the cursor can rest on.
pub fn selectable_root_indices(host: &HostView) -> (r: Vec<usize>)
    ensures
        r@ == selectable(root_rows(host@)),
        root_rows(host@).len() <= usize::MAX,
{
    let items = root_items(host);
    let n = items.len();
    let ghost rows = texts(items@);
    let mut r: Vec<usize> = Vec::new();
    for i in 0..items.len()
        invariant
            rows == texts(items@),
            r@ == selectable(rows.subrange(0, i as int)),
    {
        proof {
            assert(rows.subrange(0, i + 1).drop_last() =~= rows.subrange(0, i as int));
        }
        if !starts_with(items[i].as_str(), "\u{2500}\u{2500}\u{2500}") {
            r.push(i);
        }
    }
    assert(rows.subrange(0, rows.len() as int) =~= rows);
    r
}

/// The ids of the pages listed in the root menu, in the host's order.
pub fn page_ids_in_root(host: &HostView) -> (r: Vec<u64>)
    ensures
        r@ == page_ids(host@.entities),
{
    let ghost es = host@.entities;
    let mut r: Vec<u64> = Vec::new();
    for i in 0..host.entities.len()
        invariant
            es == host@.entities,
            r@ == page_ids(es.subrange(0, i as int)),
    {
        proof {
            assert(es.subrange(0, i + 1).drop_last() =~= es.subrange(0, i as int));
        }
        if let EntityId::Page(id) = host.entities[i].id {
            r.push(id);
        }
    }
    assert(es.subrange(0, es.len() as int) =~= es);
    r
}

} // verus!
