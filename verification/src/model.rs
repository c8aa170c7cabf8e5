//! The alert-request table: validated create, delete, update and list
//! operations over stored alert rows.
//!
//! Every operation is specified as a pure transition on the table's
//! mathematical view, so that what each call returns and how it changes
//! the table is pinned down exactly.

use vstd::prelude::*;
use crate::price::{valid_price, canon_price, normalize_price};

verus! {

/// A stored alert request: notify `user_id` when `asset_id` crosses
/// `price_alert` in the direction given by `above`.
#[derive(Debug)]
pub struct AlertRequest {
    pub id: i32,
    pub user_id: String,
    pub asset_id: String,
    pub above: bool,
    pub price_alert: String,
    pub notified: bool,
}

/// Mathematical image of a stored alert request.
#[verifier::ext_equal]
pub struct AlertView {
    pub id: int,
    pub user_id: Seq<char>,
    pub asset_id: Seq<char>,
    pub above: bool,
    pub price_alert: Seq<char>,
    pub notified: bool,
}

impl View for AlertRequest {
    type V = AlertView;

    open spec fn view(&self) -> AlertView {
        AlertView {
            id: self.id as int,
            user_id: self.user_id@,
            asset_id: self.asset_id@,
            above: self.above,
            price_alert: self.price_alert@,
            notified: self.notified,
        }
    }
}

impl Clone for AlertRequest {
    fn clone(&self) -> (res: Self)
        ensures
            res@ == self@,
    {
        AlertRequest {
            id: self.id,
            user_id: self.user_id.clone(),
            asset_id: self.asset_id.clone(),
            above: self.above,
            price_alert: self.price_alert.clone(),
            notified: self.notified,
        }
    }
}

/// Body of a create call.
#[derive(Debug)]
pub struct AddAlertRequest {
    pub user_id: String,
    pub asset_id: String,
    pub above: bool,
    pub price_alert: String,
}

/// Mathematical image of a create call.
#[verifier::ext_equal]
pub struct AddAlertView {
    pub user_id: Seq<char>,
    pub asset_id: Seq<char>,
    pub above: bool,
    pub price_alert: Seq<char>,
}

impl View for AddAlertRequest {
    type V = AddAlertView;

    open spec fn view(&self) -> AddAlertView {
        AddAlertView {
            user_id: self.user_id@,
            asset_id: self.asset_id@,
            above: self.above,
            price_alert: self.price_alert@,
        }
    }
}

/// Body of a delete call.
#[derive(Debug)]
pub struct DeleteAlertRequest {
    pub id: i32,
}

/// Body of a user-scoped list call.
#[derive(Debug)]
pub struct FetchUserAlertRequest {
    pub user_id: String,
}

/// Body of an update call.
#[derive(Debug)]
pub struct UpdateAlertRequest {
    pub id: i32,
    pub user_id: String,
    pub asset_id: String,
    pub above: bool,
    pub price_alert: String,
}

/// Mathematical image of an update call.
#[verifier::ext_equal]
pub struct UpdateAlertView {
    pub id: int,
    pub user_id: Seq<char>,
    pub asset_id: Seq<char>,
    pub above: bool,
    pub price_alert: Seq<char>,
}

impl View for UpdateAlertRequest {
    type V = UpdateAlertView;

    open spec fn view(&self) -> UpdateAlertView {
        UpdateAlertView {
            id: self.id as int,
            user_id: self.user_id@,
            asset_id: self.asset_id@,
            above: self.above,
            price_alert: self.price_alert@,
        }
    }
}

/// Why a call was refused, mirrored to an HTTP status by `status_code`.
#[derive(Clone, Copy, Debug, PartialEq, Eq, Structural)]
pub enum AlertError {
    MissingId,
    MissingUserId,
    MissingAssetId,
    MissingPriceAlert,
    InvalidPriceAlert,
    AlreadyExists,
    NotFound,
}

pub open spec fn status_of(e: AlertError) -> int {
    match e {
        AlertError::NotFound => 404,
        _ => 400,
    }
}

pub open spec fn message_of(e: AlertError) -> Seq<char> {
    match e {
        AlertError::MissingId => "Missing required field: id"@,
        AlertError::MissingUserId => "Missing required field: user_id"@,
        AlertError::MissingAssetId => "Missing required field: asset_id"@,
        AlertError::MissingPriceAlert => "Missing required field: price_alert"@,
        AlertError::InvalidPriceAlert => "price_alert must be a valid number"@,
        AlertError::AlreadyExists => "Alert request already existed"@,
        AlertError::NotFound => ""@,
    }
}

impl AlertError {
    /// The HTTP status this error maps to: 404 for a missing row, 400 else.
    pub fn status_code(&self) -> (c: u16)
        ensures
            c as int == status_of(*self),
    {
        match self {
            AlertError::NotFound => 404,
            _ => 400,
        }
    }

    /// The response body this error maps to.
    pub fn message(&self) -> (m: String)
        ensures
            m@ == message_of(*self),
    {
        match self {
            AlertError::MissingId => "Missing required field: id".to_owned(),
            AlertError::MissingUserId => "Missing required field: user_id".to_owned(),
            AlertError::MissingAssetId => "Missing required field: asset_id".to_owned(),
            AlertError::MissingPriceAlert => "Missing required field: price_alert".to_owned(),
            AlertError::InvalidPriceAlert => "price_alert must be a valid number".to_owned(),
            AlertError::AlreadyExists => "Alert request already existed".to_owned(),
            AlertError::NotFound => "".to_owned(),
        }
    }
}

/// Mathematical image of the whole table.
#[verifier::ext_equal]
pub struct TableView {
    pub rows: Seq<AlertView>,
    pub next_id: int,
}

pub open spec fn row_view(r: AlertRequest) -> AlertView {
    r@
}

pub open spec fn rows_view(rs: Seq<AlertRequest>) -> Seq<AlertView> {
    rs.map_values(|r: AlertRequest| row_view(r))
}

pub broadcast proof fn lemma_rows_view_len(rs: Seq<AlertRequest>)
    ensures
        #[trigger] rows_view(rs).len() == rs.len(),
{
}

pub broadcast proof fn lemma_rows_view_index(rs: Seq<AlertRequest>, k: int)
    requires
        0 <= k < rs.len(),
    ensures
        #[trigger] rows_view(rs)[k] == rs[k]@,
{
}

/// `r` carries exactly this `(user_id, asset_id, above, price_alert)` tuple.
pub open spec fn row_matches(
    r: AlertView,
    user_id: Seq<char>,
    asset_id: Seq<char>,
    above: bool,
    price: Seq<char>,
) -> bool {
    &&& r.user_id == user_id
    &&& r.asset_id == asset_id
    &&& r.above == above
    &&& r.price_alert == price
}

/// Index of the first row carrying the tuple, if any.
pub open spec fn find_match(
    rows: Seq<AlertView>,
    user_id: Seq<char>,
    asset_id: Seq<char>,
    above: bool,
    price: Seq<char>,
) -> Option<int>
    decreases rows.len(),
{
    if rows.len() == 0 {
        None
    } else if row_matches(rows[0], user_id, asset_id, above, price) {
        Some(0)
    } else {
        match find_match(rows.skip(1), user_id, asset_id, above, price) {
            Some(i) => Some(i + 1),
            None => None,
        }
    }
}

/// Index of the first row with this id, if any.
pub open spec fn find_id(rows: Seq<AlertView>, id: int) -> Option<int>
    decreases rows.len(),
{
    if rows.len() == 0 {
        None
    } else if rows[0].id == id {
        Some(0)
    } else {
        match find_id(rows.skip(1), id) {
            Some(i) => Some(i + 1),
            None => None,
        }
    }
}

pub proof fn lemma_find_match_some(
    rows: Seq<AlertView>,
    user_id: Seq<char>,
    asset_id: Seq<char>,
    above: bool,
    price: Seq<char>,
    i: int,
)
    requires
        0 <= i < rows.len(),
        row_matches(rows[i], user_id, asset_id, above, price),
        forall|j: int| 0 <= j < i ==> !row_matches(#[trigger] rows[j], user_id, asset_id, above, price),
    ensures
        find_match(rows, user_id, asset_id, above, price) == Some(i),
    decreases i,
{
    if i > 0 {
        assert(!row_matches(rows[0], user_id, asset_id, above, price));
        assert forall|j: int| 0 <= j < i - 1 implies !row_matches(
            #[trigger] rows.skip(1)[j],
            user_id,
            asset_id,
            above,
            price,
        ) by {
            assert(rows.skip(1)[j] == rows[j + 1]);
        }
        assert(rows.skip(1)[i - 1] == rows[i]);
        lemma_find_match_some(rows.skip(1), user_id, asset_id, above, price, i - 1);
    }
}

pub proof fn lemma_find_match_none(
    rows: Seq<AlertView>,
    user_id: Seq<char>,
    asset_id: Seq<char>,
    above: bool,
    price: Seq<char>,
)
    requires
        forall|j: int|
            0 <= j < rows.len() ==> !row_matches(#[trigger] rows[j], user_id, asset_id, above, price),
    ensures
        find_match(rows, user_id, asset_id, above, price) is None,
    decreases rows.len(),
{
    if rows.len() > 0 {
        assert forall|j: int| 0 <= j < rows.len() - 1 implies !row_matches(
            #[trigger] rows.skip(1)[j],
            user_id,
            asset_id,
            above,
            price,
        ) by {
            assert(rows.skip(1)[j] == rows[j + 1]);
        }
        lemma_find_match_none(rows.skip(1), user_id, asset_id, above, price);
    }
}

pub proof fn lemma_find_id_some(rows: Seq<AlertView>, id: int, i: int)
    requires
        0 <= i < rows.len(),
        rows[i].id == id,
        forall|j: int| 0 <= j < i ==> (#[trigger] rows[j]).id != id,
    ensures
        find_id(rows, id) == Some(i),
    decreases i,
{
    if i > 0 {
        assert forall|j: int| 0 <= j < i - 1 implies (#[trigger] rows.skip(1)[j]).id != id by {
            assert(rows.skip(1)[j] == rows[j + 1]);
        }
        assert(rows.skip(1)[i - 1] == rows[i]);
        lemma_find_id_some(rows.skip(1), id, i - 1);
    }
}

pub proof fn lemma_find_id_none(rows: Seq<AlertView>, id: int)
    requires
        forall|j: int| 0 <= j < rows.len() ==> (#[trigger] rows[j]).id != id,
    ensures
        find_id(rows, id) is None,
    decreases rows.len(),
{
    if rows.len() > 0 {
        assert forall|j: int| 0 <= j < rows.len() - 1 implies (#[trigger] rows.skip(1)[j]).id != id by {
            assert(rows.skip(1)[j] == rows[j + 1]);
        }
        lemma_find_id_none(rows.skip(1), id);
    }
}

/// All four fields of a create call pass validation.
pub open spec fn valid_add(r: AddAlertView) -> bool {
    &&& r.user_id.len() > 0
    &&& r.asset_id.len() > 0
    &&& r.price_alert.len() > 0
    &&& valid_price(r.price_alert)
}

/// All fields of an update call pass validation.
pub open spec fn valid_update(r: UpdateAlertView) -> bool {
    &&& r.id != 0
    &&& r.user_id.len() > 0
    &&& r.asset_id.len() > 0
    &&& r.price_alert.len() > 0
    &&& valid_price(r.price_alert)
}

pub open spec fn rearmed(r: AlertView) -> AlertView {
    AlertView {
        id: r.id,
        user_id: r.user_id,
        asset_id: r.asset_id,
        above: r.above,
        price_alert: r.price_alert,
        notified: false,
    }
}

pub open spec fn fired(r: AlertView) -> AlertView {
    AlertView {
        id: r.id,
        user_id: r.user_id,
        asset_id: r.asset_id,
        above: r.above,
        price_alert: r.price_alert,
        notified: true,
    }
}

/// The row a create call inserts: the canonical tuple, not yet notified.
pub open spec fn new_row(t: TableView, r: AddAlertView) -> AlertView {
    AlertView {
        id: t.next_id,
        user_id: r.user_id,
        asset_id: r.asset_id,
        above: r.above,
        price_alert: canon_price(r.price_alert),
        notified: false,
    }
}

/// Field validation of a create call: the canonical price, or the error
/// for the first field that fails, in the order the fields are checked.
pub open spec fn add_validation(r: AddAlertView) -> Result<Seq<char>, AlertError> {
    if r.user_id.len() == 0 {
        Err(AlertError::MissingUserId)
    } else if r.asset_id.len() == 0 {
        Err(AlertError::MissingAssetId)
    } else if r.price_alert.len() == 0 {
        Err(AlertError::MissingPriceAlert)
    } else if !valid_price(r.price_alert) {
        Err(AlertError::InvalidPriceAlert)
    } else {
        Ok(canon_price(r.price_alert))
    }
}

/// Field validation of an update call: a real id first, then as create.
pub open spec fn update_validation(r: UpdateAlertView) -> Result<Seq<char>, AlertError> {
    if r.id == 0 {
        Err(AlertError::MissingId)
    } else if r.user_id.len() == 0 {
        Err(AlertError::MissingUserId)
    } else if r.asset_id.len() == 0 {
        Err(AlertError::MissingAssetId)
    } else if r.price_alert.len() == 0 {
        Err(AlertError::MissingPriceAlert)
    } else if !valid_price(r.price_alert) {
        Err(AlertError::InvalidPriceAlert)
    } else {
        Ok(canon_price(r.price_alert))
    }
}

/// What a create call returns: a field-specific validation error, a
/// conflict when the tuple is present and still armed, or the id of the
/// re-armed or freshly inserted row.
pub open spec fn add_result(t: TableView, r: AddAlertView) -> Result<int, AlertError> {
    match add_validation(r) {
        Err(e) => Err(e),
        Ok(p) => match find_match(t.rows, r.user_id, r.asset_id, r.above, p) {
            Some(i) => if t.rows[i].notified {
                Ok(t.rows[i].id)
            } else {
                Err(AlertError::AlreadyExists)
            },
            None => Ok(t.next_id),
        }
    }
}

/// How a create call changes the table: re-arms the first matching row if
/// it had fired, inserts a fresh row if none matches, else leaves it alone.
pub open spec fn add_transition(t: TableView, r: AddAlertView) -> TableView {
    if valid_add(r) {
        match find_match(t.rows, r.user_id, r.asset_id, r.above, canon_price(r.price_alert)) {
            Some(i) => if t.rows[i].notified {
                TableView { rows: t.rows.update(i, rearmed(t.rows[i])), next_id: t.next_id }
            } else {
                t
            },
            None => TableView { rows: t.rows.push(new_row(t, r)), next_id: t.next_id + 1 },
        }
    } else {
        t
    }
}

pub open spec fn delete_result(t: TableView, id: int) -> Result<(), AlertError> {
    if id == 0 {
        Err(AlertError::MissingId)
    } else {
        match find_id(t.rows, id) {
            Some(_) => Ok(()),
            None => Err(AlertError::NotFound),
        }
    }
}

pub open spec fn delete_transition(t: TableView, id: int) -> TableView {
    if id == 0 {
        t
    } else {
        match find_id(t.rows, id) {
            Some(i) => TableView { rows: t.rows.remove(i), next_id: t.next_id },
            None => t,
        }
    }
}

/// The row an update call leaves behind: new tuple, same id, `notified`
/// untouched.
pub open spec fn updated_row(old_row: AlertView, r: UpdateAlertView) -> AlertView {
    AlertView {
        id: old_row.id,
        user_id: r.user_id,
        asset_id: r.asset_id,
        above: r.above,
        price_alert: canon_price(r.price_alert),
        notified: old_row.notified,
    }
}

pub open spec fn update_result(t: TableView, r: UpdateAlertView) -> Result<(), AlertError> {
    match update_validation(r) {
        Err(e) => Err(e),
        Ok(_) => match find_id(t.rows, r.id) {
            Some(_) => Ok(()),
            None => Err(AlertError::NotFound),
        },
    }
}

pub open spec fn update_transition(t: TableView, r: UpdateAlertView) -> TableView {
    if valid_update(r) {
        match find_id(t.rows, r.id) {
            Some(i) => TableView {
                rows: t.rows.update(i, updated_row(t.rows[i], r)),
                next_id: t.next_id,
            },
            None => t,
        }
    } else {
        t
    }
}

pub open spec fn notify_result(t: TableView, id: int) -> Result<(), AlertError> {
    match find_id(t.rows, id) {
        Some(_) => Ok(()),
        None => Err(AlertError::NotFound),
    }
}

pub open spec fn notify_transition(t: TableView, id: int) -> TableView {
    match find_id(t.rows, id) {
        Some(i) => TableView { rows: t.rows.update(i, fired(t.rows[i])), next_id: t.next_id },
        None => t,
    }
}

/// The rows of `rows` that belong to `u`, in stored order.
pub open spec fn user_filter(u: Seq<char>) -> spec_fn(AlertView) -> bool {
    |r: AlertView| r.user_id == u
}

pub open spec fn rows_for_user(rows: Seq<AlertView>, u: Seq<char>) -> Seq<AlertView> {
    rows.filter(user_filter(u))
}

/// Well-formedness: ids are the store's own, positive, below the next free
/// one, and no two rows share an id.
pub open spec fn table_wf(t: TableView) -> bool {
    &&& 1 <= t.next_id <= i32::MAX
    &&& forall|i: int| 0 <= i < t.rows.len() ==> 1 <= (#[trigger] t.rows[i]).id < t.next_id
    &&& forall|i: int, j: int|
        0 <= i < t.rows.len() && 0 <= j < t.rows.len() && i != j ==> (#[trigger] t.rows[i]).id != (
        #[trigger] t.rows[j]).id
}

/// `r` corresponds to the mathematical result `s`.
pub open spec fn result_matches(r: Result<i32, AlertError>, s: Result<int, AlertError>) -> bool {
    match r {
        Ok(id) => s == Ok::<int, AlertError>(id as int),
        Err(e) => s == Err::<int, AlertError>(e),
    }
}

/// Checks a create call's fields in the order the handler reports them
/// and hands back the canonical price string.
pub fn validate_add(req: &AddAlertRequest) -> (res: Result<String, AlertError>)
    ensures
        match res {
            Ok(p) => add_validation(req@) == Ok::<Seq<char>, AlertError>(p@) && p@ == canon_price(
                req@.price_alert,
            ) && valid_add(req@),
            Err(e) => add_validation(req@) == Err::<Seq<char>, AlertError>(e) && !valid_add(req@),
        },
{
    if req.user_id.as_str().is_empty() {
        return Err(AlertError::MissingUserId);
    }
    if req.asset_id.as_str().is_empty() {
        return Err(AlertError::MissingAssetId);
    }
    if req.price_alert.as_str().is_empty() {
        return Err(AlertError::MissingPriceAlert);
    }
    match normalize_price(req.price_alert.as_str()) {
        Some(p) => Ok(p),
        None => Err(AlertError::InvalidPriceAlert),
    }
}

/// Checks an update call's fields: a real id first, then as create.
pub fn validate_update(req: &UpdateAlertRequest) -> (res: Result<String, AlertError>)
    ensures
        match res {
            Ok(p) => update_validation(req@) == Ok::<Seq<char>, AlertError>(p@) && p@
                == canon_price(req@.price_alert) && valid_update(req@),
            Err(e) => update_validation(req@) == Err::<Seq<char>, AlertError>(e) && !valid_update(
                req@,
            ),
        },
{
    if req.id == 0 {
        return Err(AlertError::MissingId);
    }
    if req.user_id.as_str().is_empty() {
        return Err(AlertError::MissingUserId);
    }
    if req.asset_id.as_str().is_empty() {
        return Err(AlertError::MissingAssetId);
    }
    if req.price_alert.as_str().is_empty() {
        return Err(AlertError::MissingPriceAlert);
    }
    match normalize_price(req.price_alert.as_str()) {
        Some(p) => Ok(p),
        None => Err(AlertError::InvalidPriceAlert),
    }
}

/// What a create must do once the store was asked for the normalized
/// tuple: insert a fresh row, re-arm the row it found, or refuse.
#[derive(Clone, Copy, Debug, PartialEq, Eq, Structural)]
pub enum AddAction {
    Insert,
    Rearm(i32),
    Conflict,
}

pub open spec fn add_decision_spec(found: Option<(i32, bool)>) -> AddAction {
    match found {
        None => AddAction::Insert,
        Some((id, notified)) => if notified {
            AddAction::Rearm(id)
        } else {
            AddAction::Conflict
        },
    }
}

/// Decides a create, given the `(id, notified)` pair of the row a
/// store-backed handler found for the normalized tuple, if any.
pub fn add_decision(found: Option<(i32, bool)>) -> (res: AddAction)
    ensures
        res == add_decision_spec(found),
{
    match found {
        None => AddAction::Insert,
        Some((id, notified)) => if notified {
            AddAction::Rearm(id)
        } else {
            AddAction::Conflict
        },
    }
}

/// The alert-request table, with the id the store will hand out next.
pub struct AlertTable {
    rows: Vec<AlertRequest>,
    next_id: i32,
}

impl View for AlertTable {
    type V = TableView;

    closed spec fn view(&self) -> TableView {
        TableView { rows: rows_view(self.rows@), next_id: self.next_id as int }
    }
}

impl AlertTable {
    /// An empty table; the store hands out ids from 1 up.
    pub fn new() -> (res: AlertTable)
        ensures
            res@.rows.len() == 0,
            res@.next_id == 1,
            table_wf(res@),
    {
        AlertTable { rows: Vec::new(), next_id: 1 }
    }

    fn find_tuple(&self, user_id: &String, asset_id: &String, above: bool, price: &String) -> (res:
        Option<usize>)
        ensures
            match res {
                Some(i) => find_match(self@.rows, user_id@, asset_id@, above, price@) == Some(
                    i as int,
                ) && i < self@.rows.len(),
                None => find_match(self@.rows, user_id@, asset_id@, above, price@) is None,
            },
    {
        let mut i: usize = 0;
        while i < self.rows.len()
            invariant
                i <= self.rows.len(),
                forall|j: int|
                    0 <= j < i ==> !row_matches(
                        #[trigger] self@.rows[j],
                        user_id@,
                        asset_id@,
                        above,
                        price@,
                    ),
            decreases self.rows.len() - i,
        {
            let r = &self.rows[i];
            if r.user_id == *user_id && r.asset_id == *asset_id && r.above == above
                && r.price_alert == *price {
                proof {
                    assert(self@.rows[i as int] == r@);
                    lemma_find_match_some(self@.rows, user_id@, asset_id@, above, price@, i as int);
                }
                return Some(i);
            }
            proof {
                assert(self@.rows[i as int] == r@);
            }
            i = i + 1;
        }
        proof {
            lemma_find_match_none(self@.rows, user_id@, asset_id@, above, price@);
        }
        None
    }

    fn find_row_id(&self, id: i32) -> (res: Option<usize>)
        ensures
            match res {
                Some(i) => find_id(self@.rows, id as int) == Some(i as int) && i
                    < self@.rows.len(),
                None => find_id(self@.rows, id as int) is None,
            },
    {
        let mut i: usize = 0;
        while i < self.rows.len()
            invariant
                i <= self.rows.len(),
                forall|j: int| 0 <= j < i ==> (#[trigger] self@.rows[j]).id != id as int,
            decreases self.rows.len() - i,
        {
            let r = &self.rows[i];
            if r.id == id {
                proof {
                    assert(self@.rows[i as int] == r@);
                    lemma_find_id_some(self@.rows, id as int, i as int);
                }
                return Some(i);
            }
            proof {
                assert(self@.rows[i as int] == r@);
            }
            i = i + 1;
        }
        proof {
            lemma_find_id_none(self@.rows, id as int);
        }
        None
    }

    /// Create: validate the fields, normalize the price, then re-arm the
    /// matching fired row, refuse a still-armed duplicate, or insert.
    pub fn add_alert_request(&mut self, req: &AddAlertRequest) -> (res: Result<i32, AlertError>)
        requires
            table_wf(old(self)@),
            old(self)@.next_id < i32::MAX,
        ensures
            table_wf(final(self)@),
            final(self)@ == add_transition(old(self)@, req@),
            result_matches(res, add_result(old(self)@, req@)),
    {
        let np = match validate_add(req) {
            Ok(p) => p,
            Err(e) => {
                return Err(e);
            },
        };
        match self.find_tuple(&req.user_id, &req.asset_id, req.above, &np) {
            Some(i) => {
                if self.rows[i].notified {
                    let id = self.rows[i].id;
                    let updated = AlertRequest {
                        id,
                        user_id: self.rows[i].user_id.clone(),
                        asset_id: self.rows[i].asset_id.clone(),
                        above: self.rows[i].above,
                        price_alert: self.rows[i].price_alert.clone(),
                        notified: false,
                    };
                    self.rows[i] = updated;
                    proof {
                        assert(self@.rows =~= add_transition(old(self)@, req@).rows);
                        assert(self@ == add_transition(old(self)@, req@));
                    }
                    Ok(id)
                } else {
                    Err(AlertError::AlreadyExists)
                }
            },
            None => {
                let id = self.next_id;
                let row = AlertRequest {
                    id,
                    user_id: req.user_id.clone(),
                    asset_id: req.asset_id.clone(),
                    above: req.above,
                    price_alert: np,
                    notified: false,
                };
                self.rows.push(row);
                self.next_id = self.next_id + 1;
                proof {
                    assert(self@.rows =~= add_transition(old(self)@, req@).rows);
                    assert(self@ == add_transition(old(self)@, req@));
                }
                Ok(id)
            },
        }
    }

    /// Delete: refuse the id-not-given sentinel 0, report a missing row,
    /// else remove exactly that row.
    pub fn delete_alert_request(&mut self, req: &DeleteAlertRequest) -> (res: Result<
        (),
        AlertError,
    >)
        requires
            table_wf(old(self)@),
        ensures
            table_wf(final(self)@),
            final(self)@ == delete_transition(old(self)@, req.id as int),
            res == delete_result(old(self)@, req.id as int),
    {
        if req.id == 0 {
            return Err(AlertError::MissingId);
        }
        match self.find_row_id(req.id) {
            Some(i) => {
                self.rows.remove(i);
                proof {
                    assert(self@.rows =~= delete_transition(old(self)@, req.id as int).rows);
                    assert(self@ == delete_transition(old(self)@, req.id as int));
                }
                Ok(())
            },
            None => Err(AlertError::NotFound),
        }
    }

    /// Update: validate as create does (plus a real id), then overwrite the
    /// row's tuple, leaving `notified` untouched.
    pub fn update_alert_request(&mut self, req: &UpdateAlertRequest) -> (res: Result<
        (),
        AlertError,
    >)
        requires
            table_wf(old(self)@),
        ensures
            table_wf(final(self)@),
            final(self)@ == update_transition(old(self)@, req@),
            res == update_result(old(self)@, req@),
    {
        let np = match validate_update(req) {
            Ok(p) => p,
            Err(e) => {
                return Err(e);
            },
        };
        match self.find_row_id(req.id) {
            Some(i) => {
                let updated = AlertRequest {
                    id: self.rows[i].id,
                    user_id: req.user_id.clone(),
                    asset_id: req.asset_id.clone(),
                    above: req.above,
                    price_alert: np,
                    notified: self.rows[i].notified,
                };
                self.rows[i] = updated;
                proof {
                    assert(self@.rows =~= update_transition(old(self)@, req@).rows);
                    assert(self@ == update_transition(old(self)@, req@));
                }
                Ok(())
            },
            None => Err(AlertError::NotFound),
        }
    }

    /// List every stored row, in stored order.
    pub fn fetch_alert_requests(&self) -> (res: Vec<AlertRequest>)
        ensures
            rows_view(res@) == self@.rows,
    {
        let mut out: Vec<AlertRequest> = Vec::new();
        let mut i: usize = 0;
        while i < self.rows.len()
            invariant
                i <= self.rows.len(),
                rows_view(out@) =~= self@.rows.take(i as int),
            decreases self.rows.len() - i,
        {
            let ghost prev = out@;
            out.push(self.rows[i].clone());
            proof {
                broadcast use lemma_rows_view_len, lemma_rows_view_index;

                assert(rows_view(self.rows@).len() == self.rows@.len());
                assert(rows_view(prev).len() == prev.len());
                assert(prev.len() == i as int);
                assert forall|k: int| 0 <= k < out@.len() implies rows_view(out@)[k] == self@.rows.take(
                    i as int + 1,
                )[k] by {
                    if k < i as int {
                        assert(out@[k] == prev[k]);
                        assert(rows_view(prev)[k] == self@.rows.take(i as int)[k]);
                    } else {
                        assert(out@[k]@ == self.rows@[i as int]@);
                    }
                }
                assert(rows_view(out@) =~= self@.rows.take(i as int + 1));
            }
            i = i + 1;
        }
        proof {
            assert(self@.rows.take(self.rows@.len() as int) =~= self@.rows);
        }
        out
    }

    /// List one user's rows, in stored order; a user with none gets
    /// `NotFound`, never an empty list.
    pub fn fetch_user_alert_requests(&self, req: &FetchUserAlertRequest) -> (res: Result<
        Vec<AlertRequest>,
        AlertError,
    >)
        ensures
            match res {
                Ok(v) => rows_for_user(self@.rows, req.user_id@).len() > 0 && rows_view(v@)
                    == rows_for_user(self@.rows, req.user_id@),
                Err(e) => e == AlertError::NotFound && rows_for_user(self@.rows, req.user_id@).len()
                    == 0,
            },
    {
        let user_id = &req.user_id;
        let mut out: Vec<AlertRequest> = Vec::new();
        let mut i: usize = 0;
        proof {
            reveal(Seq::filter);
        }
        while i < self.rows.len()
            invariant
                i <= self.rows.len(),
                rows_view(out@) =~= rows_for_user(self@.rows.take(i as int), user_id@),
            decreases self.rows.len() - i,
        {
            let r = &self.rows[i];
            proof {
                reveal(Seq::filter);
                assert(self@.rows[i as int] == r@);
                assert(self@.rows.take(i as int + 1).drop_last() =~= self@.rows.take(i as int));
                assert(self@.rows.take(i as int + 1).last() == self@.rows[i as int]);
            }
            if r.user_id == *user_id {
                out.push(self.rows[i].clone());
                proof {
                    assert(rows_view(out@) =~= rows_for_user(
                        self@.rows.take(i as int + 1),
                        user_id@,
                    ));
                }
            } else {
                proof {
                    assert(rows_view(out@) =~= rows_for_user(
                        self@.rows.take(i as int + 1),
                        user_id@,
                    ));
                }
            }
            i = i + 1;
        }
        proof {
            assert(self@.rows.take(self.rows@.len() as int) =~= self@.rows);
        }
        if out.len() == 0 {
            proof {
                assert(rows_for_user(self@.rows, user_id@).len() == 0);
            }
            Err(AlertError::NotFound)
        } else {
            Ok(out)
        }
    }

    /// Models the external notifier: marks the stored request as fired.
    pub fn mark_notified(&mut self, id: i32) -> (res: Result<(), AlertError>)
        requires
            table_wf(old(self)@),
        ensures
            table_wf(final(self)@),
            final(self)@ == notify_transition(old(self)@, id as int),
            res == notify_result(old(self)@, id as int),
    {
        match self.find_row_id(id) {
            Some(i) => {
                let updated = AlertRequest {
                    id: self.rows[i].id,
                    user_id: self.rows[i].user_id.clone(),
                    asset_id: self.rows[i].asset_id.clone(),
                    above: self.rows[i].above,
                    price_alert: self.rows[i].price_alert.clone(),
                    notified: true,
                };
                self.rows[i] = updated;
                proof {
                    assert(self@.rows =~= notify_transition(old(self)@, id as int).rows);
                    assert(self@ == notify_transition(old(self)@, id as int));
                }
                Ok(())
            },
            None => Err(AlertError::NotFound),
        }
    }
}

} // verus!
