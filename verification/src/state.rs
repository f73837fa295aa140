//! The state that survives a restart of the trading bot.
use vstd::prelude::*;

verus! {

/// An open order managed by the bot.
pub struct OpenOrder {
    /// The stable reference attached to the order.
    pub order_ref: String,
    /// The permanent identifier, once the broker has assigned one.
    pub perm_id: Option<i64>,
    /// The moment the order was created.
    pub created_at: i128,
    /// The moment of the most recent cancellation attempt.
    pub last_cancelled_at: Option<i128>,
}

/// The mathematical model of an [`OpenOrder`].
#[verifier::ext_equal]
pub struct OpenOrderModel {
    pub order_ref: Seq<char>,
    pub perm_id: Option<i64>,
    pub created_at: i128,
    pub last_cancelled_at: Option<i128>,
}

impl View for OpenOrder {
    type V = OpenOrderModel;

    open spec fn view(&self) -> OpenOrderModel {
        OpenOrderModel {
            order_ref: self.order_ref@,
            perm_id: self.perm_id,
            created_at: self.created_at,
            last_cancelled_at: self.last_cancelled_at,
        }
    }
}

/// The state that is kept on disk.
pub struct State {
    /// The open orders, from the oldest to the newest.
    pub open_orders: Vec<OpenOrder>,
}

impl View for State {
    type V = Seq<OpenOrderModel>;

    open spec fn view(&self) -> Seq<OpenOrderModel> {
        self.open_orders@.map_values(|order: OpenOrder| order@)
    }
}

/// Return the state in which the program starts if no state was loaded from disk.
pub fn initial() -> (result: State)
    ensures
        result@ == Seq::<OpenOrderModel>::empty(),
{
    let result = State { open_orders: Vec::new() };
    assert(result@ =~= Seq::empty());
    result
}

} // verus!
