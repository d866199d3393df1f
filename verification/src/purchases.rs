use vstd::prelude::*;
use vstd::string::*;
use crate::accounts::{is_hex_lower, is_uuid_text, new_uuid_text};
use crate::catalog::count_text;
use crate::orb::decimal;
use crate::protocol::text;
use crate::zones::copy_strings;
use crate::status::{STATUS_BAD_REQUEST, STATUS_CREATED, STATUS_INTERNAL_ERROR, STATUS_NOT_FOUND, STATUS_OK, STATUS_BAD_GATEWAY, STATUS_CONFLICT};

verus! {

/// What `str::to_uppercase` gives back for a text: its Unicode upper case.
pub uninterp spec fn uppercased(s: Seq<char>) -> Seq<char>;

/// The upper case of an ASCII character: `a` to `z` become `A` to `Z`, the
/// others stay.
pub open spec fn ascii_upper(c: char) -> char {
    if 'a' <= c && c <= 'z' {
        (c as int - 32) as char
    } else {
        c
    }
}

/// Every character of `s` is ASCII.
pub open spec fn all_ascii(s: Seq<char>) -> bool {
    forall|i: int| 0 <= i < s.len() ==> (#[trigger] s[i]) as u32 <= 127
}

/// `s` with `a` to `z` in upper case.
pub open spec fn ascii_uppercased(s: Seq<char>) -> Seq<char> {
    s.map_values(|c: char| ascii_upper(c))
}

/// An upper case hexadecimal digit.
pub open spec fn is_hex_upper(c: char) -> bool {
    ('0' <= c && c <= '9') || ('A' <= c && c <= 'F')
}

/// The layout of a purchase id: `PUR-` and eight upper case hexadecimal
/// digits.
pub open spec fn is_purchase_id(s: Seq<char>) -> bool {
    &&& s.len() == 12
    &&& s.subrange(0, 4) == "PUR-"@
    &&& forall|i: int| 4 <= i < 12 ==> is_hex_upper(#[trigger] s[i])
}

/// `str::to_uppercase` from std. The contract names the result `uppercased`;
/// Unicode's case mapping is not spelled out beyond ASCII, where std maps
/// `a` to `z` to `A` to `Z` one for one and leaves every other character.
#[verifier::external_body]
fn to_upper(s: &str) -> (r: String)
    ensures
        r@ == uppercased(s@),
        all_ascii(s@) ==> r@ == ascii_uppercased(s@),
{
    s.to_uppercase()
}

/// A decimal digit.
pub open spec fn is_digit(c: char) -> bool {
    '0' <= c && c <= '9'
}

/// `t` is a time in RFC 3339 form with a year of `y` characters and a
/// fraction of a second of `f` characters (its point included): the year in
/// four digits, or a sign and at least four digits; `-`, month and day in
/// two digits each; `T`; hours, minutes and seconds in two digits each,
/// split by `:`; no fraction or a point and 3, 6 or 9 digits; and the
/// offset `+00:00` of UTC.
pub open spec fn stamp_layout(t: Seq<char>, y: int, f: int) -> bool {
    &&& (y == 4 && forall|k: int| 0 <= k < 4 ==> is_digit(#[trigger] t[k]))
        || (y >= 5 && (t[0] == '+' || t[0] == '-') && forall|k: int| 1 <= k < y ==> is_digit(#[trigger] t[k]))
    &&& f == 0 || f == 4 || f == 7 || f == 10
    &&& t.len() == y + 21 + f
    &&& t[y] == '-' && is_digit(t[y + 1]) && is_digit(t[y + 2])
    &&& t[y + 3] == '-' && is_digit(t[y + 4]) && is_digit(t[y + 5])
    &&& t[y + 6] == 'T'
    &&& is_digit(t[y + 7]) && is_digit(t[y + 8]) && t[y + 9] == ':'
    &&& is_digit(t[y + 10]) && is_digit(t[y + 11]) && t[y + 12] == ':'
    &&& is_digit(t[y + 13]) && is_digit(t[y + 14])
    &&& f > 0 ==> t[y + 15] == '.' && forall|k: int| y + 16 <= k < y + 15 + f ==> is_digit(#[trigger] t[k])
    &&& t.subrange(y + 15 + f, y + 21 + f) == "+00:00"@
}

/// A time in RFC 3339 form written in UTC, as in [`stamp_layout`].
pub open spec fn is_utc_stamp(t: Seq<char>) -> bool {
    exists|y: int, f: int| #[trigger] stamp_layout(t, y, f)
}

/// `chrono::Utc::now().to_rfc3339()`: the current time. Which time it is
/// depends on the moment of the call; the contract claims the layout that
/// chrono writes for a time in UTC: date, `T`, time, a fraction of 3, 6 or
/// 9 digits unless it is zero, and the offset `+00:00` (no `Z`). Which date
/// and time the digits give is left unsaid.
#[verifier::external_body]
fn now_rfc3339() -> (t: String)
    ensures
        is_utc_stamp(t@),
{
    chrono::Utc::now().to_rfc3339()
}

/// `k` is where the first group of `s` ends: at its first hyphen, or at its
/// end when it has none.
pub open spec fn group_end(s: Seq<char>, k: int) -> bool {
    &&& 0 <= k <= s.len()
    &&& (k == s.len() || s[k] == '-')
    &&& forall|j: int| 0 <= j < k ==> s[j] != '-'
}

/// The first group of `s`: what comes before its first hyphen.
pub open spec fn first_group(s: Seq<char>) -> Seq<char> {
    s.subrange(0, choose|k: int| group_end(s, k))
}

/// The id of a purchase made from the text of a UUID.
pub open spec fn purchase_id_text(uuid: Seq<char>) -> Seq<char> {
    "PUR-"@ + uppercased(first_group(uuid))
}

/// A text has one end of its first group.
proof fn lemma_group_end_unique(s: Seq<char>, k1: int, k2: int)
    requires
        group_end(s, k1),
        group_end(s, k2),
    ensures
        k1 == k2,
{
    if k1 < k2 {
        assert(s[k1] == '-');
    } else if k2 < k1 {
        assert(s[k2] == '-');
    }
}

/// The id of a purchase made from the text of a UUID: `PUR-` and the text's
/// first group in upper case.
pub fn purchase_id_from(uuid: &str) -> (id: String)
    ensures
        id@ == purchase_id_text(uuid@),
        all_ascii(first_group(uuid@)) ==> id@ == "PUR-"@ + ascii_uppercased(first_group(uuid@)),
{
    let n = uuid.unicode_len();
    let mut k: usize = 0;
    while k < n && uuid.get_char(k) != '-'
        invariant
            n == uuid@.len(),
            k <= n,
            forall|j: int| 0 <= j < k ==> uuid@[j] != '-',
        decreases n - k,
    {
        k = k + 1;
    }
    proof {
        assert(group_end(uuid@, k as int));
        let c = choose|c: int| group_end(uuid@, c);
        lemma_group_end_unique(uuid@, k as int, c);
    }
    let head = uuid.substring_char(0, k);
    let up = to_upper(head);
    let mut id = text("PUR-");
    id.append(up.as_str());
    id
}

/// A fresh purchase id: `PUR-` and the first eight digits of a random UUID
/// in upper case.
pub fn new_purchase_id() -> (id: String)
    ensures
        exists|u: Seq<char>| is_uuid_text(u) && id@ == "PUR-"@ + uppercased(#[trigger] u.subrange(0, 8)),
        is_purchase_id(id@),
{
    let u = new_uuid_text();
    let id = purchase_id_from(u.as_str());
    proof {
        assert(u@[8] == '-');
        assert forall|j: int| 0 <= j < 8 implies u@[j] != '-' by {
            assert(u@[j] == '-' ==> j == 8 || j == 13 || j == 18 || j == 23);
        }
        assert(group_end(u@, 8));
        let c = choose|c: int| group_end(u@, c);
        lemma_group_end_unique(u@, 8, c);
        assert(id@ == "PUR-"@ + uppercased(u@.subrange(0, 8)));
        let g = u@.subrange(0, 8);
        assert forall|i: int| 0 <= i < g.len() implies (#[trigger] g[i]) as u32 <= 127 && is_hex_upper(ascii_upper(g[i])) by {
            assert(g[i] == u@[i]);
            assert(i != 8 && i != 13 && i != 18 && i != 23);
            lemma_hex_upper(g[i]);
        }
        reveal_strlit("PUR-");
        assert(id@.subrange(0, 4) =~= "PUR-"@);
        assert forall|i: int| 4 <= i < 12 implies is_hex_upper(#[trigger] id@[i]) by {
            assert(id@[i] == ascii_uppercased(g)[i - 4]);
        }
    }
    id
}

/// An upper case hexadecimal digit is what a lower case one becomes.
proof fn lemma_hex_upper(c: char)
    requires
        is_hex_lower(c),
    ensures
        c as u32 <= 127,
        is_hex_upper(ascii_upper(c)),
{
}

/// One item of a purchase: its id, its name and its price in cents.
pub struct ItemSummary {
    pub id: String,
    pub name: String,
    pub price_cents: u64,
}

/// An item of a purchase as the specifications see it.
pub struct ItemSummaryView {
    pub id: Seq<char>,
    pub name: Seq<char>,
    pub price_cents: u64,
}

impl View for ItemSummary {
    type V = ItemSummaryView;

    open spec fn view(&self) -> ItemSummaryView {
        ItemSummaryView { id: self.id@, name: self.name@, price_cents: self.price_cents }
    }
}

/// The views of a list of items.
pub open spec fn summary_views(items: Seq<ItemSummary>) -> Seq<ItemSummaryView> {
    items.map_values(|it: ItemSummary| it@)
}

/// The sum of the prices of a list of items, in cents.
pub open spec fn sum_prices(items: Seq<ItemSummaryView>) -> int
    decreases items.len(),
{
    if items.len() == 0 {
        0
    } else {
        sum_prices(items.drop_last()) + items.last().price_cents
    }
}

/// A sum of prices is at most the largest price times the number of items.
proof fn lemma_sum_prices_bound(items: Seq<ItemSummaryView>)
    ensures
        0 <= sum_prices(items) <= items.len() * (u64::MAX as int),
    decreases items.len(),
{
    if items.len() > 0 {
        lemma_sum_prices_bound(items.drop_last());
    }
}

/// A copy of a list of items.
fn copy_summaries(v: &Vec<ItemSummary>) -> (out: Vec<ItemSummary>)
    ensures
        summary_views(out@) == summary_views(v@),
{
    let mut out: Vec<ItemSummary> = Vec::new();
    let mut i: usize = 0;
    while i < v.len()
        invariant
            i <= v@.len(),
            out@.len() == i,
            forall|j: int| 0 <= j < i ==> (#[trigger] out@[j])@ == v@[j]@,
        decreases v@.len() - i,
    {
        let it = &v[i];
        out.push(ItemSummary { id: it.id.clone(), name: it.name.clone(), price_cents: it.price_cents });
        i = i + 1;
    }
    assert(summary_views(out@) =~= summary_views(v@));
    out
}

/// A purchase: who bought, which items were asked for, the items that the
/// items service described, their total in cents, when, and its status.
pub struct Purchase {
    pub id: String,
    pub user_email: String,
    pub user_name: String,
    pub item_ids: Vec<String>,
    pub item_details: Vec<ItemSummary>,
    pub total_cents: u128,
    pub created_at: String,
    pub status: String,
}

/// A purchase as the specifications see it.
pub struct PurchaseView {
    pub id: Seq<char>,
    pub user_email: Seq<char>,
    pub user_name: Seq<char>,
    pub item_ids: Seq<String>,
    pub item_details: Seq<ItemSummaryView>,
    pub total_cents: u128,
    pub created_at: Seq<char>,
    pub status: Seq<char>,
}

impl View for Purchase {
    type V = PurchaseView;

    open spec fn view(&self) -> PurchaseView {
        PurchaseView {
            id: self.id@,
            user_email: self.user_email@,
            user_name: self.user_name@,
            item_ids: self.item_ids@,
            item_details: summary_views(self.item_details@),
            total_cents: self.total_cents,
            created_at: self.created_at@,
            status: self.status@,
        }
    }
}

impl Purchase {
    /// A copy of this purchase.
    pub fn duplicate(&self) -> (r: Purchase)
        ensures
            r@ == self@,
    {
        Purchase {
            id: self.id.clone(),
            user_email: self.user_email.clone(),
            user_name: self.user_name.clone(),
            item_ids: copy_strings(&self.item_ids),
            item_details: copy_summaries(&self.item_details),
            total_cents: self.total_cents,
            created_at: self.created_at.clone(),
            status: self.status.clone(),
        }
    }
}


/// A request to buy the items with these ids.
pub struct CreatePurchaseRequest {
    pub user_email: String,
    pub item_ids: Vec<String>,
}

/// The account of the buyer as the users service describes it.
pub struct UserData {
    pub id: String,
    pub name: String,
    pub email: String,
}

/// A product as the items service describes it, its price in cents.
pub struct ItemData {
    pub id: String,
    pub name: String,
    pub price_cents: u64,
}

/// What came of asking the users service about the buyer.
pub enum UserFetch {
    /// The request did not go through; the text of the error.
    Unreachable { error: String },
    /// The service answered with `status`, which is not a success.
    Refused { status: u16 },
    /// The service's answer could not be read.
    Unreadable,
    /// The service's answer, with the account if it found one.
    Answered { data: Option<UserData> },
}

/// What came of asking the items service about one item.
pub enum ItemFetch {
    /// The request did not go through; the text of the error.
    Unreachable { error: String },
    /// The service answered with `status`, which is not a success.
    Refused { status: u16 },
    /// The service's answer could not be read.
    Unreadable,
    /// The service's answer, with the product if it described one.
    Answered { data: Option<ItemData> },
}

/// A purchase being put together: the buyer as the users service described
/// it, the ids asked for, the items described so far with their total, and
/// the position of the next id to ask about.
pub struct PurchaseDraft {
    pub user_email: String,
    pub user_name: String,
    pub item_ids: Vec<String>,
    pub details: Vec<ItemSummary>,
    pub total_cents: u128,
    pub next: usize,
}

impl PurchaseDraft {
    /// The total is the sum of the prices of the items described so far,
    /// and no more items were described than ids asked about.
    pub open spec fn wf(&self) -> bool {
        &&& self.next <= self.item_ids@.len()
        &&& self.details@.len() <= self.next
        &&& self.total_cents == sum_prices(summary_views(self.details@))
    }
}

/// What to do next while a purchase is put together.
pub enum PurchaseStep {
    /// Ask the users service at `url`, then hand its answer to `after_user`.
    FetchUser { url: String, request: CreatePurchaseRequest },
    /// Ask the items service at `url`, then hand its answer to `after_item`.
    FetchItem { url: String, draft: PurchaseDraft },
    /// Answer the buyer with this status and message.
    Fail { status: u16, message: String },
    /// Every id was asked about: the purchase can be recorded.
    Complete { draft: PurchaseDraft },
}

/// The address at which the users service describes the account of `email`.
pub open spec fn user_url(base: Seq<char>, email: Seq<char>) -> Seq<char> {
    base + "/users/email/"@ + email
}

/// The address at which the items service describes the item `id`.
pub open spec fn item_url(base: Seq<char>, id: Seq<char>) -> Seq<char> {
    base + "/items/"@ + id
}

/// `a`, `b` and `c` one after the other.
fn join3(a: &str, b: &str, c: &str) -> (r: String)
    ensures
        r@ == a@ + b@ + c@,
{
    let mut r = String::from_str(a);
    r.append(b);
    r.append(c);
    r
}

/// The step fails with this status and message.
/// A status by which a service says it failed: a server error (5xx).
pub open spec fn is_server_error(status: u16) -> bool {
    500 <= status <= 599
}

pub open spec fn fails_with(step: PurchaseStep, status: u16, message: Seq<char>) -> bool {
    step matches PurchaseStep::Fail { status: s, message: m } && s == status && m@ == message
}

/// `POST /purchases`, first step: a request without items is refused with
/// 400; otherwise the users service is asked about the buyer.
pub fn begin_purchase(request: CreatePurchaseRequest, users_base: &str) -> (step: PurchaseStep)
    ensures
        request.item_ids@.len() == 0 ==> fails_with(step, STATUS_BAD_REQUEST, "Debe incluir al menos un item"@),
        request.item_ids@.len() > 0 ==> (step matches PurchaseStep::FetchUser { url, request: r }
            && url@ == user_url(users_base@, request.user_email@) && r == request),
{
    if request.item_ids.len() == 0 {
        return PurchaseStep::Fail { status: STATUS_BAD_REQUEST, message: text("Debe incluir al menos un item") };
    }
    let url = join3(users_base, "/users/email/", request.user_email.as_str());
    PurchaseStep::FetchUser { url, request }
}

/// The summary of an item as the items service described it.
pub open spec fn summary_of(d: ItemData) -> ItemSummaryView {
    ItemSummaryView { id: d.id@, name: d.name@, price_cents: d.price_cents }
}

/// `POST /purchases`, after the users service answered about the buyer: an
/// unreachable or failing (5xx) service gives 502, any other refusal or an
/// answer without an account 404, an unreadable answer 500; with an
/// account, the items service is asked about the first item.
pub fn after_user(request: CreatePurchaseRequest, fetch: UserFetch, items_base: &str) -> (step: PurchaseStep)
    requires
        request.item_ids@.len() > 0,
    ensures
        match fetch {
            UserFetch::Unreachable { error } => fails_with(step, STATUS_BAD_GATEWAY,
                "No se pudo contactar al servicio de usuarios: "@ + error@),
            UserFetch::Refused { status } => if is_server_error(status) {
                fails_with(step, STATUS_BAD_GATEWAY, "El servicio de usuarios respondió con error "@ + decimal(status as nat))
            } else {
                fails_with(step, STATUS_NOT_FOUND, "Usuario no encontrado en el sistema"@)
            },
            UserFetch::Unreadable => fails_with(step, STATUS_INTERNAL_ERROR,
                "Error al procesar respuesta del servicio de usuarios"@),
            UserFetch::Answered { data: None } => fails_with(step, STATUS_NOT_FOUND, "Usuario no encontrado"@),
            UserFetch::Answered { data: Some(u) } => step matches PurchaseStep::FetchItem { url, draft } && {
                &&& url@ == item_url(items_base@, request.item_ids@[0]@)
                &&& draft.wf()
                &&& draft.user_email == u.email
                &&& draft.user_name == u.name
                &&& draft.item_ids == request.item_ids
                &&& draft.details@.len() == 0
                &&& draft.next == 0
            },
        },
{
    match fetch {
        UserFetch::Unreachable { error } => PurchaseStep::Fail {
            status: STATUS_BAD_GATEWAY,
            message: {
                let mut m = text("No se pudo contactar al servicio de usuarios: ");
                m.append(error.as_str());
                m
            },
        },
        UserFetch::Refused { status } => if 500 <= status && status <= 599 {
            proof {
                reveal_strlit("");
            }
            PurchaseStep::Fail {
                status: STATUS_BAD_GATEWAY,
                message: count_text("El servicio de usuarios respondió con error ", status as usize, ""),
            }
        } else {
            PurchaseStep::Fail { status: STATUS_NOT_FOUND, message: text("Usuario no encontrado en el sistema") }
        },
        UserFetch::Unreadable => PurchaseStep::Fail {
            status: STATUS_INTERNAL_ERROR,
            message: text("Error al procesar respuesta del servicio de usuarios"),
        },
        UserFetch::Answered { data } => match data {
            None => PurchaseStep::Fail { status: STATUS_NOT_FOUND, message: text("Usuario no encontrado") },
            Some(u) => {
                let url = join3(items_base, "/items/", request.item_ids[0].as_str());
                let draft = PurchaseDraft {
                    user_email: u.email,
                    user_name: u.name,
                    item_ids: request.item_ids,
                    details: Vec::new(),
                    total_cents: 0,
                    next: 0,
                };
                assert(summary_views(draft.details@) =~= Seq::<ItemSummaryView>::empty());
                PurchaseStep::FetchItem { url, draft }
            },
        },
    }
}

/// `draft2` is `draft` after the item at `draft.next` was described by
/// `data` (or by nothing): the item joins the list and the total, and the
/// next id is the one after.
pub open spec fn advanced(draft: PurchaseDraft, data: Option<ItemData>, draft2: PurchaseDraft) -> bool {
    &&& draft2.wf()
    &&& draft2.user_email == draft.user_email
    &&& draft2.user_name == draft.user_name
    &&& draft2.item_ids == draft.item_ids
    &&& draft2.next == draft.next + 1
    &&& summary_views(draft2.details@) == match data {
        Some(d) => summary_views(draft.details@).push(summary_of(d)),
        None => summary_views(draft.details@),
    }
}

/// `POST /purchases`, after the items service answered about the item at
/// `draft.next`: an unreachable or failing (5xx) service gives 502, any
/// other refusal 404 naming the item, an unreadable answer 500; an answer adds the item it describes (if
/// any) and moves on to the next id, or completes the purchase after the
/// last one.
pub fn after_item(draft: PurchaseDraft, fetch: ItemFetch, items_base: &str) -> (step: PurchaseStep)
    requires
        draft.wf(),
        draft.next < draft.item_ids@.len(),
    ensures
        match fetch {
            ItemFetch::Unreachable { error } => fails_with(step, STATUS_BAD_GATEWAY,
                "No se pudo contactar al servicio de items: "@ + error@),
            ItemFetch::Refused { status } => if is_server_error(status) {
                fails_with(step, STATUS_BAD_GATEWAY, "El servicio de items respondió con error "@ + decimal(status as nat))
            } else {
                fails_with(step, STATUS_NOT_FOUND, "Item '"@ + draft.item_ids@[draft.next as int]@ + "' no encontrado"@)
            },
            ItemFetch::Unreadable => fails_with(step, STATUS_INTERNAL_ERROR,
                "Error al procesar respuesta del servicio de items"@),
            ItemFetch::Answered { data } => if draft.next + 1 < draft.item_ids@.len() {
                step matches PurchaseStep::FetchItem { url, draft: d2 }
                    && url@ == item_url(items_base@, draft.item_ids@[draft.next + 1]@)
                    && advanced(draft, data, d2)
            } else {
                step matches PurchaseStep::Complete { draft: d2 } && advanced(draft, data, d2)
            },
        },
{
    match fetch {
        ItemFetch::Unreachable { error } => {
            let mut m = text("No se pudo contactar al servicio de items: ");
            m.append(error.as_str());
            PurchaseStep::Fail { status: STATUS_BAD_GATEWAY, message: m }
        },
        ItemFetch::Refused { status } => if 500 <= status && status <= 599 {
            proof {
                reveal_strlit("");
            }
            PurchaseStep::Fail {
                status: STATUS_BAD_GATEWAY,
                message: count_text("El servicio de items respondió con error ", status as usize, ""),
            }
        } else {
            PurchaseStep::Fail {
                status: STATUS_NOT_FOUND,
                message: join3("Item '", draft.item_ids[draft.next].as_str(), "' no encontrado"),
            }
        },
        ItemFetch::Unreadable => PurchaseStep::Fail {
            status: STATUS_INTERNAL_ERROR,
            message: text("Error al procesar respuesta del servicio de items"),
        },
        ItemFetch::Answered { data } => {
            let ghost old_draft = draft;
            let ghost data_view = data;
            let mut d2 = draft;
            let n_ids = d2.item_ids.len();
            match data {
                Some(item) => {
                    proof { lemma_sum_prices_bound(summary_views(d2.details@)); }
                    assert(d2.total_cents + item.price_cents <= u128::MAX) by (nonlinear_arith)
                        requires
                            d2.total_cents <= d2.details@.len() * (u64::MAX as int),
                            d2.details@.len() <= d2.next,
                            d2.next <= usize::MAX,
                            item.price_cents <= u64::MAX,
                            usize::MAX <= u64::MAX;
                    d2.total_cents = d2.total_cents + item.price_cents as u128;
                    d2.details.push(ItemSummary { id: item.id, name: item.name, price_cents: item.price_cents });
                    proof {
                        assert(summary_views(d2.details@).drop_last() =~= summary_views(old_draft.details@));
                        assert(summary_views(d2.details@) =~= summary_views(old_draft.details@).push(summary_of(data_view->0)));
                    }
                },
                None => {},
            }
            d2.next = d2.next + 1;
            if d2.next < n_ids {
                let url = join3(items_base, "/items/", d2.item_ids[d2.next].as_str());
                PurchaseStep::FetchItem { url, draft: d2 }
            } else {
                PurchaseStep::Complete { draft: d2 }
            }
        },
    }
}

/// The purchase that a completed draft makes under this id and time: the
/// buyer as the users service described it, the ids asked for, the items
/// described with their total, status `completed`.
pub fn finish_purchase(draft: PurchaseDraft, id: String, created_at: String) -> (p: Purchase)
    requires
        draft.wf(),
        draft.next == draft.item_ids@.len(),
    ensures
        p.id == id,
        p.user_email == draft.user_email,
        p.user_name == draft.user_name,
        p.item_ids == draft.item_ids,
        p@.item_details == summary_views(draft.details@),
        p@.total_cents == sum_prices(p@.item_details),
        p.created_at == created_at,
        p.status@ == "completed"@,
{
    Purchase {
        id,
        user_email: draft.user_email,
        user_name: draft.user_name,
        item_ids: draft.item_ids,
        item_details: draft.details,
        total_cents: draft.total_cents,
        created_at,
        status: text("completed"),
    }
}

/// The purchase that a completed draft makes, under a fresh id and the
/// current time.
pub fn complete_purchase(draft: PurchaseDraft) -> (p: Purchase)
    requires
        draft.wf(),
        draft.next == draft.item_ids@.len(),
    ensures
        exists|u: Seq<char>| is_uuid_text(u) && p.id@ == "PUR-"@ + uppercased(#[trigger] u.subrange(0, 8)),
        is_purchase_id(p.id@),
        is_utc_stamp(p.created_at@),
        p.user_email == draft.user_email,
        p.user_name == draft.user_name,
        p.item_ids == draft.item_ids,
        p@.item_details == summary_views(draft.details@),
        p@.total_cents == sum_prices(p@.item_details),
        p.status@ == "completed"@,
{
    let id = new_purchase_id();
    let created_at = now_rfc3339();
    finish_purchase(draft, id, created_at)
}

/// The items that a run of answers of the items service describes, in the
/// order of the answers; an answer without a product adds nothing.
pub open spec fn described(datas: Seq<Option<ItemData>>) -> Seq<ItemSummaryView>
    decreases datas.len(),
{
    if datas.len() == 0 {
        Seq::empty()
    } else {
        match datas.last() {
            Some(d) => described(datas.drop_last()).push(summary_of(d)),
            None => described(datas.drop_last()),
        }
    }
}

/// A purchase put together from a draft with no items, through one answer
/// of the items service per id, lists exactly the products that the answers
/// described, in order, and its total is the sum of their prices.
pub proof fn lemma_draft_run(drafts: Seq<PurchaseDraft>, datas: Seq<Option<ItemData>>)
    requires
        drafts.len() == datas.len() + 1,
        drafts[0].wf(),
        drafts[0].details@.len() == 0,
        forall|k: int| 0 <= k < datas.len() ==> advanced(drafts[k], #[trigger] datas[k], drafts[k + 1]),
    ensures
        summary_views(drafts.last().details@) == described(datas),
        drafts.last().total_cents == sum_prices(described(datas)),
        drafts.last().next == drafts[0].next + datas.len(),
        drafts.last().item_ids == drafts[0].item_ids,
    decreases datas.len(),
{
    if datas.len() == 0 {
        assert(summary_views(drafts[0].details@) =~= Seq::<ItemSummaryView>::empty());
    } else {
        let n = datas.len() as int;
        let d0 = drafts.drop_last();
        let s0 = datas.drop_last();
        assert forall|k: int| 0 <= k < s0.len() implies advanced(d0[k], #[trigger] s0[k], d0[k + 1]) by {
            assert(advanced(drafts[k], datas[k], drafts[k + 1]));
        }
        lemma_draft_run(d0, s0);
        assert(advanced(drafts[n - 1], datas[n - 1], drafts[n]));
        assert(d0.last() == drafts[n - 1]);
    }
}

/// An answer of the purchases service about one purchase.
pub struct PurchaseReply {
    pub status: u16,
    pub success: bool,
    pub message: String,
    pub data: Option<Purchase>,
}

/// The answer of the purchases service that lists every purchase.
pub struct PurchaseList {
    pub success: bool,
    pub message: String,
    pub data: Vec<Purchase>,
}

/// `i` is the first position of a purchase with this id.
pub open spec fn first_with_purchase_id(ps: Seq<PurchaseView>, id: Seq<char>, i: int) -> bool {
    &&& 0 <= i < ps.len()
    &&& ps[i].id == id
    &&& forall|j: int| 0 <= j < i ==> ps[j].id != id
}

/// The views of a list of purchases.
pub open spec fn purchase_views(ps: Seq<Purchase>) -> Seq<PurchaseView> {
    ps.map_values(|p: Purchase| p@)
}

/// Some purchase of `book` has id `id`.
pub open spec fn id_taken(book: Seq<PurchaseView>, id: Seq<char>) -> bool {
    exists|i: int| 0 <= i < book.len() && (#[trigger] book[i]).id == id
}

/// No two purchases of `book` share an id.
pub open spec fn ids_distinct(book: Seq<PurchaseView>) -> bool {
    forall|i: int, j: int| 0 <= i < j < book.len() ==> (#[trigger] book[i]).id != (#[trigger] book[j]).id
}

/// The purchases recorded so far, oldest first; no two share an id.
pub struct PurchaseBook {
    purchases: Vec<Purchase>,
}

impl View for PurchaseBook {
    type V = Seq<PurchaseView>;

    closed spec fn view(&self) -> Seq<PurchaseView> {
        purchase_views(self.purchases@)
    }
}

impl PurchaseBook {
    /// No purchase yet.
    pub fn new() -> (b: PurchaseBook)
        ensures
            b@ == Seq::<PurchaseView>::empty(),
            ids_distinct(b@),
    {
        let b = PurchaseBook { purchases: Vec::new() };
        assert(b@ =~= Seq::<PurchaseView>::empty());
        b
    }

    /// Whether a recorded purchase has id `id`.
    pub fn has_id(&self, id: &String) -> (b: bool)
        ensures
            b == id_taken(self@, id@),
    {
        let mut i: usize = 0;
        while i < self.purchases.len()
            invariant
                i <= self.purchases@.len(),
                forall|j: int| 0 <= j < i ==> self.purchases@[j]@.id != id@,
            decreases self.purchases@.len() - i,
        {
            if self.purchases[i].id == *id {
                assert(self@[i as int].id == id@);
                return true;
            }
            i = i + 1;
        }
        proof {
            assert forall|j: int| 0 <= j < self@.len() implies (#[trigger] self@[j]).id != id@ by {
                assert(self@[j] == self.purchases@[j]@);
            }
        }
        false
    }

    /// Records a completed purchase under an id no recorded purchase has,
    /// and answers its buyer with 201 and the purchase; a purchase whose id
    /// is already recorded is refused with 409 and nothing is recorded.
    pub fn record(&mut self, p: Purchase) -> (r: PurchaseReply)
        ensures
            ids_distinct(old(self)@) ==> ids_distinct(final(self)@),
            !id_taken(old(self)@, p@.id) ==> {
                &&& final(self)@ == old(self)@.push(p@)
                &&& r.status == STATUS_CREATED
                &&& r.success
                &&& r.message@ == "Compra registrada exitosamente"@
                &&& r.data matches Some(q) && q@ == p@
            },
            id_taken(old(self)@, p@.id) ==> {
                &&& final(self)@ == old(self)@
                &&& r.status == STATUS_CONFLICT
                &&& !r.success
                &&& r.message@ == "ID de compra duplicado"@
                &&& r.data is None
            },
    {
        if self.has_id(&p.id) {
            return PurchaseReply { status: STATUS_CONFLICT, success: false, message: text("ID de compra duplicado"), data: None };
        }
        let copy = p.duplicate();
        self.purchases.push(p);
        proof {
            assert(self@ =~= old(self)@.push(copy@));
        }
        PurchaseReply { status: STATUS_CREATED, success: true, message: text("Compra registrada exitosamente"), data: Some(copy) }
    }

    /// `GET /purchases`: every purchase, and how many there are.
    pub fn get_purchases(&self) -> (r: PurchaseList)
        ensures
            r.success,
            r.message@ == decimal(self@.len()) + " compras encontradas"@,
            purchase_views(r.data@) == self@,
    {
        let mut data: Vec<Purchase> = Vec::new();
        let mut i: usize = 0;
        while i < self.purchases.len()
            invariant
                i <= self.purchases@.len(),
                data@.len() == i,
                forall|j: int| 0 <= j < i ==> (#[trigger] data@[j])@ == self.purchases@[j]@,
            decreases self.purchases@.len() - i,
        {
            data.push(self.purchases[i].duplicate());
            i = i + 1;
        }
        proof {
            assert(purchase_views(data@) =~= self@);
            reveal_strlit("");
        }
        let message = count_text("", data.len(), " compras encontradas");
        assert(""@ + decimal(data@.len() as nat) =~= decimal(data@.len() as nat));
        PurchaseList { success: true, message, data }
    }

    /// `GET /purchases/{id}`: the first purchase with this id, or 404.
    pub fn get_purchase_by_id(&self, id: &String) -> (r: PurchaseReply)
        ensures
            match r.data {
                Some(p) => {
                    &&& r.status == STATUS_OK
                    &&& r.success
                    &&& r.message@ == "Compra encontrada"@
                    &&& exists|i: int| first_with_purchase_id(self@, id@, i) && p@ == self@[i]
                },
                None => {
                    &&& r.status == STATUS_NOT_FOUND
                    &&& !r.success
                    &&& r.message@ == "Compra no encontrada"@
                    &&& forall|i: int| 0 <= i < self@.len() ==> self@[i].id != id@
                },
            },
    {
        let mut i: usize = 0;
        while i < self.purchases.len()
            invariant
                i <= self.purchases@.len(),
                self@ == purchase_views(self.purchases@),
                forall|j: int| 0 <= j < i ==> self@[j].id != id@,
            decreases self.purchases@.len() - i,
        {
            if self.purchases[i].id == *id {
                assert(first_with_purchase_id(self@, id@, i as int));
                return PurchaseReply {
                    status: STATUS_OK,
                    success: true,
                    message: text("Compra encontrada"),
                    data: Some(self.purchases[i].duplicate()),
                };
            }
            i = i + 1;
        }
        PurchaseReply { status: STATUS_NOT_FOUND, success: false, message: text("Compra no encontrada"), data: None }
    }
}

/// Once a purchase is recorded under an id that no earlier purchase has, a
/// lookup of that id finds it; lookups of other ids answer as before.
pub proof fn lemma_recorded_purchase_found(ps: Seq<PurchaseView>, p: PurchaseView, id: Seq<char>)
    requires
        forall|j: int| 0 <= j < ps.len() ==> ps[j].id != p.id,
    ensures
        first_with_purchase_id(ps.push(p), p.id, ps.len() as int),
        id != p.id ==> forall|i: int| first_with_purchase_id(ps.push(p), id, i) <==> first_with_purchase_id(ps, id, i),
{
    let all = ps.push(p);
    if id != p.id {
        assert forall|i: int| first_with_purchase_id(all, id, i) <==> first_with_purchase_id(ps, id, i) by {
            if first_with_purchase_id(all, id, i) {
                assert(i < ps.len());
                assert forall|j: int| 0 <= j < i implies ps[j].id != id by {
                    assert(all[j] == ps[j]);
                }
            }
            if first_with_purchase_id(ps, id, i) {
                assert forall|j: int| 0 <= j < i implies all[j].id != id by {
                    assert(all[j] == ps[j]);
                }
            }
        }
    }
}

} // verus!
