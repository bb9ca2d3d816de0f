use vstd::prelude::*;

verus! {

/// A single balance record: an id assigned by the registry, two free-form
/// text labels, and a balance in integer units. The balance is never
/// negative while the record sits in a well-formed registry.
pub struct Wallet {
    pub id: u32,
    pub name: String,
    pub coin_type: String,
    pub balance: i64,
}

/// The mathematical image of a `Wallet`: the same fields, over `Seq<char>`
/// and `int`.
pub struct WalletView {
    pub id: u32,
    pub name: Seq<char>,
    pub coin_type: Seq<char>,
    pub balance: int,
}

impl View for Wallet {
    type V = WalletView;

    open spec fn view(&self) -> WalletView {
        WalletView {
            id: self.id,
            name: self.name@,
            coin_type: self.coin_type@,
            balance: self.balance as int,
        }
    }
}

/// `w` with its balance replaced by `b` and every other field kept.
pub open spec fn with_balance(w: WalletView, b: int) -> WalletView {
    WalletView { id: w.id, name: w.name, coin_type: w.coin_type, balance: b }
}

/// Why an operation was refused. Every refusal leaves the registry
/// exactly as it was.
#[derive(Clone, Copy, Debug, PartialEq, Eq, Structural)]
pub enum WalletError {
    /// The registry holds no wallets at all.
    NoWallets,
    /// The amount handed to deposit or withdraw was not strictly positive.
    InvalidAmount,
    /// No wallet carries the requested id.
    NotFound,
    /// A withdrawal asked for more than the wallet's balance.
    InsufficientFunds,
}

} // verus!
