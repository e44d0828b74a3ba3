# xmodules

Reusable modules for a MultiversX-style smart contract, written in Verus:

- `fee_manager`: the fee token and amount, the fees collected so far, and
  withdrawing them to the owner.
- `fee_payment_validator`: taking the fee out of the payments that come with
  a call and handing back the rest.
- `multi_token_payment`: a set of accepted tokens, each at a fixed amount,
  and checking the payments of a call against it.
- `referrals`: referral tags, their share of the fees, volume tiers that
  raise that share, and claiming the collected fees.

Each module is a trait. The implementor provides the storage through small
getters and setters; the module's operations are provided methods, proved
against specification functions over an abstract view of that storage.
Operations that would move tokens return a `Payout` for the caller to
perform; refused operations return an error and leave storage unchanged.
Each module's operations leave the storage of the other modules as it was.

Layout:

- `src/`: the verified library. `storage` holds byte-string comparison and a
  map keyed by byte strings; `payment` the token and payment types;
  `contract` an in-memory storage that implements every module.
- `tests/`: tests of the library.
- `app/`: the contract endpoints over the framework's storage mappers, call
  values and transfers.
