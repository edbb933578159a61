//! The gateway's general commands: what each command asks of the gateway.

use vstd::prelude::*;

verus! {

/// The milliseconds of a day.
pub const DAY_MILLIS: u64 = 86_400_000;

/// The smallest cost that a password hash may have.
pub const MIN_COST: u32 = 4;

/// The largest cost that a password hash may have.
pub const MAX_COST: u32 = 31;

/// A command of the gateway's command line.
#[derive(Debug)]
pub enum GeneralCommands {
    /// Display the version hash of the command line.
    VersionHash,
    /// Display high-level information about the gateway.
    Info,
    /// Get the on-chain, lightning and e-cash balances of the gateway.
    GetBalances,
    /// Register the gateway with a federation.
    ConnectFed { invite_code: String, use_tor: Option<bool>, recover: Option<bool> },
    /// Leave a federation.
    LeaveFed { federation_id: String },
    /// Print the seed phrase of the gateway.
    Seed,
    /// Safely stop the gateway.
    Stop,
    /// List the transactions that the gateway has processed.
    PaymentLog {
        end_position: Option<u64>,
        pagination_size: usize,
        federation_id: String,
        event_kinds: Vec<String>,
    },
    /// Create a hash of a password, for use in gateway deployment.
    CreatePasswordHash { password: String, cost: Option<u32> },
    /// Summarise the payments of a span of time, by default the last day.
    PaymentSummary { start: Option<u64>, end: Option<u64> },
}

/// What a command asks for.
#[derive(Debug)]
pub enum GatewayRequest {
    /// Print the version hash; the gateway is not asked.
    VersionHash,
    /// Ask for the gateway's information, by the older endpoint if the
    /// newer one fails.
    GetInfo,
    /// Ask for the balances.
    GetBalances,
    /// Ask the gateway to connect to a federation.
    ConnectFederation { invite_code: String, use_tor: Option<bool>, recover: Option<bool> },
    /// Ask the gateway to leave a federation.
    LeaveFederation { federation_id: String },
    /// Ask for the seed phrase.
    GetMnemonic,
    /// Ask the gateway to stop.
    Stop,
    /// Ask for a page of the payment log.
    PaymentLog {
        end_position: Option<u64>,
        pagination_size: usize,
        federation_id: String,
        event_kinds: Vec<String>,
    },
    /// Hash a password with the given cost; the gateway is not asked.
    HashPassword { password: String, cost: u32 },
    /// Ask for the summary of the payments from `start_millis` to
    /// `end_millis`.
    PaymentSummary { start_millis: u64, end_millis: u64 },
}

/// The span of time that a payment summary covers, in milliseconds since
/// the epoch: it ends at `end`, else now, and begins at `start`, else a day
/// before now.
pub open spec fn summary_window(now_millis: u64, start: Option<u64>, end: Option<u64>) -> (
    u64,
    u64,
) {
    (
        match start {
            Some(start) => start,
            None => (now_millis - DAY_MILLIS) as u64,
        },
        match end {
            Some(end) => end,
            None => now_millis,
        },
    )
}

/// Computes the span of time that a payment summary covers. Now is at
/// least a day after the epoch.
pub fn payment_summary_window(now_millis: u64, start: Option<u64>, end: Option<u64>) -> (window:
    (u64, u64))
    requires
        now_millis >= DAY_MILLIS,
    ensures
        window == summary_window(now_millis, start, end),
{
    let one_day_ago_millis = now_millis - DAY_MILLIS;
    let end_millis = match end {
        Some(end) => end,
        None => now_millis,
    };
    let start_millis = match start {
        Some(start) => start,
        None => one_day_ago_millis,
    };
    (start_millis, end_millis)
}

/// Why a password could not be hashed.
#[derive(Clone, Copy, Debug, PartialEq, Eq, Structural)]
pub enum PasswordHashError {
    /// The cost is not between 4 and 31.
    CostNotAllowed(u32),
    /// A hash is malformed.
    InvalidHash,
    /// The system gave no random salt.
    Random,
    /// The password is longer than the hash takes in.
    Truncation(usize),
}

/// The decimal digit `d` as a character.
pub open spec fn digit(d: int) -> char {
    if d == 0 {
        '0'
    } else if d == 1 {
        '1'
    } else if d == 2 {
        '2'
    } else if d == 3 {
        '3'
    } else if d == 4 {
        '4'
    } else if d == 5 {
        '5'
    } else if d == 6 {
        '6'
    } else if d == 7 {
        '7'
    } else if d == 8 {
        '8'
    } else {
        '9'
    }
}

/// The text has the shape of a password hash of the given cost: sixty
/// characters that begin with `$2b$`, the cost in two digits, and `$`.
pub open spec fn is_hash_of_cost(text: Seq<char>, cost: u32) -> bool {
    &&& text.len() == 60
    &&& text[0] == '$'
    &&& text[1] == '2'
    &&& text[2] == 'b'
    &&& text[3] == '$'
    &&& text[4] == digit(cost as int / 10)
    &&& text[5] == digit(cost as int % 10)
    &&& text[6] == '$'
}

/// `bcrypt::DEFAULT_COST`: the cost that bcrypt suggests, which is 12.
#[verifier::external_body]
fn default_cost() -> (cost: u32)
    ensures
        cost == 12,
{
    bcrypt::DEFAULT_COST
}

/// `bcrypt::hash`: hashes the password with a fresh random salt.
///
/// The salt differs from call to call, so nothing is said of the hash but
/// its shape. A success means that the cost was between 4 and 31 and gives
/// sixty characters: `$2b$`, the cost in two digits, `$`, and the encoded
/// salt and digest. `CostNotAllowed` carries the cost that was given and
/// means that it was out of that range. The call can also fail for want of
/// random bytes, whatever the cost.
#[verifier::external_body]
fn bcrypt_hash(password: &str, cost: u32) -> (r: Result<String, PasswordHashError>)
    ensures
        r matches Ok(hash) ==> MIN_COST <= cost <= MAX_COST && is_hash_of_cost(hash@, cost),
        r matches Err(PasswordHashError::CostNotAllowed(given)) ==> given == cost && !(MIN_COST
            <= cost <= MAX_COST),
        !(r matches Err(PasswordHashError::InvalidHash)),
        !(r matches Err(PasswordHashError::Truncation(_))),
{
    match bcrypt::hash(password, cost) {
        Ok(hash) => Ok(hash),
        Err(bcrypt::BcryptError::CostNotAllowed(cost)) => Err(PasswordHashError::CostNotAllowed(cost)),
        Err(bcrypt::BcryptError::InvalidHash(_)) => Err(PasswordHashError::InvalidHash),
        Err(bcrypt::BcryptError::Rand(_)) => Err(PasswordHashError::Random),
        Err(bcrypt::BcryptError::Truncation(len)) => Err(PasswordHashError::Truncation(len)),
    }
}

/// The cost that a password is hashed with: the one given, else the
/// default of 12.
pub fn password_hash_cost(cost: Option<u32>) -> (chosen: u32)
    ensures
        chosen == match cost {
            Some(cost) => cost,
            None => 12,
        },
{
    match cost {
        Some(cost) => cost,
        None => default_cost(),
    }
}

/// Hashes a password with the given cost, for use in gateway deployment.
///
/// The hash has a random salt. A cost out of the range from 4 to 31 fails,
/// and so does a system that gives no random bytes; whenever the call
/// succeeds, the cost was in range and the hash has the shape of a hash of
/// that cost.
pub fn create_password_hash(password: &str, cost: u32) -> (r: Result<String, PasswordHashError>)
    ensures
        !(MIN_COST <= cost <= MAX_COST) ==> r is Err,
        match r {
            Ok(hash) => MIN_COST <= cost <= MAX_COST && is_hash_of_cost(hash@, cost),
            Err(e) => e == PasswordHashError::Random || (e == PasswordHashError::CostNotAllowed(
                cost,
            ) && !(MIN_COST <= cost <= MAX_COST)),
        },
{
    bcrypt_hash(password, cost)
}

impl GeneralCommands {
    /// Decides what the command asks for, at time `now_millis` in
    /// milliseconds since the epoch. For a payment summary, now is at least a
    /// day after the epoch.
    pub fn handle(self, now_millis: u64) -> (request: GatewayRequest)
        requires
            self is PaymentSummary ==> now_millis >= DAY_MILLIS,
        ensures
            match (self, request) {
                (GeneralCommands::VersionHash, GatewayRequest::VersionHash) => true,
                (GeneralCommands::Info, GatewayRequest::GetInfo) => true,
                (GeneralCommands::GetBalances, GatewayRequest::GetBalances) => true,
                (
                    GeneralCommands::ConnectFed { invite_code, use_tor, recover },
                    GatewayRequest::ConnectFederation {
                        invite_code: code,
                        use_tor: tor,
                        recover: again,
                    },
                ) => code@ == invite_code@ && tor == use_tor && again == recover,
                (
                    GeneralCommands::LeaveFed { federation_id },
                    GatewayRequest::LeaveFederation { federation_id: left },
                ) => left@ == federation_id@,
                (GeneralCommands::Seed, GatewayRequest::GetMnemonic) => true,
                (GeneralCommands::Stop, GatewayRequest::Stop) => true,
                (
                    GeneralCommands::PaymentLog {
                        end_position,
                        pagination_size,
                        federation_id,
                        event_kinds,
                    },
                    GatewayRequest::PaymentLog {
                        end_position: end,
                        pagination_size: size,
                        federation_id: federation,
                        event_kinds: kinds,
                    },
                ) => end == end_position && size == pagination_size && federation@
                    == federation_id@ && kinds == event_kinds,
                (
                    GeneralCommands::CreatePasswordHash { password, cost },
                    GatewayRequest::HashPassword { password: secret, cost: chosen },
                ) => secret@ == password@ && chosen == match cost {
                    Some(cost) => cost,
                    None => 12,
                },
                (
                    GeneralCommands::PaymentSummary { start, end },
                    GatewayRequest::PaymentSummary { start_millis, end_millis },
                ) => (start_millis, end_millis) == summary_window(now_millis, start, end),
                _ => false,
            },
    {
        match self {
            GeneralCommands::VersionHash => GatewayRequest::VersionHash,
            GeneralCommands::Info => GatewayRequest::GetInfo,
            GeneralCommands::GetBalances => GatewayRequest::GetBalances,
            GeneralCommands::ConnectFed {
                invite_code,
                use_tor,
                recover,
            } => GatewayRequest::ConnectFederation { invite_code, use_tor, recover },
            GeneralCommands::LeaveFed { federation_id } => GatewayRequest::LeaveFederation {
                federation_id,
            },
            GeneralCommands::Seed => GatewayRequest::GetMnemonic,
            GeneralCommands::Stop => GatewayRequest::Stop,
            GeneralCommands::PaymentLog {
                end_position,
                pagination_size,
                federation_id,
                event_kinds,
            } => GatewayRequest::PaymentLog {
                end_position,
                pagination_size,
                federation_id,
                event_kinds,
            },
            GeneralCommands::CreatePasswordHash { password, cost } => GatewayRequest::HashPassword {
                password,
                cost: password_hash_cost(cost),
            },
            GeneralCommands::PaymentSummary { start, end } => {
                let (start_millis, end_millis) = payment_summary_window(now_millis, start, end);
                GatewayRequest::PaymentSummary { start_millis, end_millis }
            },
        }
    }
}

} // verus!
