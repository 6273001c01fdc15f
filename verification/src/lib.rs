//! Whale-transaction collection and analysis.
//!
//! The crate gathers high-value transactions from several sources under a
//! sliding-window rate limit, flags statistical outliers in volume and timing,
//! recognises behavioural patterns, and composes the findings into a report.
//!
//! Every quantity is an exact integer. Instants are whole seconds since the
//! Unix epoch (UTC); scores and confidences are basis points (`10_000` is `1.0`);
//! z-score thresholds are thousandths (`2_500` is `2.5`).

use vstd::prelude::*;

pub mod analytics;
pub mod bignat;
pub mod blockchain;
pub mod calendar;
pub mod order;
pub mod text;
pub mod whale_tracker;
pub mod zk_proofs;

verus! {

/// One basis point is a ten-thousandth; this is the value that stands for `1.0`.
pub const BASIS_POINTS_ONE: u32 = 10_000;

/// Result type of the fallible operations of this crate.
pub type ZKWatchResult<T> = Result<T, ZKWatchError>;

/// The failures this crate reports.
#[derive(Debug)]
pub enum ZKWatchError {
    /// A source could not be queried; the payload is the source's name.
    SourceUnavailable(String),
    /// The clock reading handed to a rate limiter cannot be a real one:
    /// the admission instant would not fit the clock's range.
    RateLimiterClockFailure,
    /// A configuration value is outside its admissible range.
    ConfigurationInvalid,
    /// A proof did not pass its structural check.
    ProofVerification,
    /// A cryptographic operation could not be carried out.
    Crypto,
}

/// How a transaction was classified by its source.
#[derive(Clone, Copy, Debug, PartialEq, Eq, Hash, Structural)]
pub enum TransactionPattern {
    Standard,
    LargeTransaction,
    WashTrade,
    MEVAttack,
    FlashLoan,
    DefiInteraction,
    CrossChainBridge,
    SuspectedPump,
}

/// A high-value transaction as observed on some source.
///
/// `timestamp` is in seconds since the Unix epoch; `risk_score` is in basis
/// points and meaningful in `0..=10_000`.
#[derive(Clone, Debug, PartialEq, Eq)]
pub struct WhaleTransaction {
    pub hash: String,
    pub from: String,
    pub to: String,
    pub value: u128,
    pub gas_used: u64,
    pub block_number: u64,
    pub timestamp: i64,
    pub zk_proof_hash: Option<String>,
    pub risk_score: u32,
    pub pattern_type: TransactionPattern,
}

/// The mathematical content of a [`WhaleTransaction`].
pub struct TransactionView {
    pub hash: Seq<char>,
    pub from: Seq<char>,
    pub to: Seq<char>,
    pub value: nat,
    pub gas_used: nat,
    pub block_number: nat,
    pub timestamp: int,
    pub zk_proof_hash: Option<Seq<char>>,
    pub risk_score: nat,
    pub pattern_type: TransactionPattern,
}

impl View for WhaleTransaction {
    type V = TransactionView;

    open spec fn view(&self) -> TransactionView {
        TransactionView {
            hash: self.hash@,
            from: self.from@,
            to: self.to@,
            value: self.value as nat,
            gas_used: self.gas_used as nat,
            block_number: self.block_number as nat,
            timestamp: self.timestamp as int,
            zk_proof_hash: match self.zk_proof_hash {
                Some(h) => Some(h@),
                None => None,
            },
            risk_score: self.risk_score as nat,
            pattern_type: self.pattern_type,
        }
    }
}

impl WhaleTransaction {
    /// An independent copy with the same content.
    pub fn duplicate(&self) -> (copy: WhaleTransaction)
        ensures
            copy@ == self@,
    {
        let proof_hash = match &self.zk_proof_hash {
            Some(h) => Some(h.clone()),
            None => None,
        };
        WhaleTransaction {
            hash: self.hash.clone(),
            from: self.from.clone(),
            to: self.to.clone(),
            value: self.value,
            gas_used: self.gas_used,
            block_number: self.block_number,
            timestamp: self.timestamp,
            zk_proof_hash: proof_hash,
            risk_score: self.risk_score,
            pattern_type: self.pattern_type,
        }
    }
}

/// The contents of a batch, element by element.
pub open spec fn batch_view(batch: Seq<WhaleTransaction>) -> Seq<TransactionView> {
    Seq::new(batch.len(), |i: int| batch[i]@)
}

/// The texts held by a list of strings.
pub open spec fn texts(list: Seq<String>) -> Seq<Seq<char>> {
    Seq::new(list.len(), |i: int| list[i]@)
}

/// A proof: a digest, the public inputs it commits to, and the key it is
/// to be checked with. `timestamp` is in seconds since the epoch.
#[derive(Clone, Debug, PartialEq, Eq)]
pub struct ZKProof {
    pub proof_data: Vec<u8>,
    pub public_inputs: Vec<String>,
    pub verification_key: String,
    pub timestamp: i64,
}

/// A source of transactions: a name, a chain identifier and where to reach it.
#[derive(Clone, Debug, PartialEq, Eq)]
pub struct NetworkConfig {
    pub name: String,
    pub chain_id: u64,
    pub rpc_url: String,
    pub explorer_url: String,
}

/// A contract address the pattern detectors know by name.
#[derive(Clone, Debug, PartialEq, Eq)]
pub struct KnownContract {
    pub label: String,
    pub address: String,
}

/// The mathematical content of a [`KnownContract`].
pub struct ContractView {
    pub label: Seq<char>,
    pub address: Seq<char>,
}

impl View for KnownContract {
    type V = ContractView;

    open spec fn view(&self) -> ContractView {
        ContractView { label: self.label@, address: self.address@ }
    }
}

/// The contents of a list of known contracts, element by element.
pub open spec fn contract_views(list: Seq<KnownContract>) -> Seq<ContractView> {
    Seq::new(list.len(), |i: int| list[i]@)
}

/// Whether `list` holds the text of `wanted`.
pub fn holds_text(list: &Vec<String>, wanted: &String) -> (found: bool)
    ensures
        found == texts(list@).contains(wanted@),
{
    let n = list.len();
    let mut i: usize = 0;
    while i < n
        invariant
            n == list.len(),
            i <= n,
            forall|j: int| 0 <= j < i ==> texts(list@)[j] != wanted@,
        decreases n - i,
    {
        if list[i] == *wanted {
            assert(texts(list@)[i as int] == wanted@);
            return true;
        }
        i = i + 1;
    }
    false
}

/// What a tracker is told to do: which sources to scan and under what
/// limits, and where its detectors draw their lines.
///
/// `window_duration` is in milliseconds; the z-score thresholds are in
/// thousandths; `wash_trade_confidence` is in basis points.
#[derive(Clone, Debug)]
pub struct WhaleTrackerConfig {
    pub min_transaction_threshold: u128,
    pub tracking_networks: Vec<NetworkConfig>,
    pub zk_proof_enabled: bool,
    pub real_time_monitoring: bool,
    pub alerts_enabled: bool,
    pub max_requests_per_window: u64,
    pub window_duration: u64,
    pub large_volume_threshold: u128,
    pub volume_z_threshold: u32,
    pub timing_z_threshold: u32,
    pub coordinated_min_group_size: usize,
    pub wash_trade_confidence: u32,
    pub bridge_contracts: Vec<KnownContract>,
    pub defi_protocols: Vec<KnownContract>,
}

/// One hundred ether in wei: the default least value of a whale transaction.
pub const DEFAULT_MIN_TRANSACTION: u128 = 100_000_000_000_000_000_000;

/// One thousand ether in wei: the default volume beyond which transactions
/// of one hour count as a coordinated movement.
pub const DEFAULT_LARGE_VOLUME: u128 = 1_000_000_000_000_000_000_000;

/// The default z-score beyond which a volume is an outlier: 2.5.
pub const DEFAULT_VOLUME_Z: u32 = 2_500;

/// The default z-score beyond which a gap is an outlier: 2.0.
pub const DEFAULT_TIMING_Z: u32 = 2_000;

/// The default least number of transactions in a coordinated movement.
pub const DEFAULT_GROUP_SIZE: usize = 3;

/// The default confidence of a wash-trading pattern: 0.6.
pub const DEFAULT_WASH_CONFIDENCE: u32 = 6_000;

fn network(name: &str, chain_id: u64, rpc_url: &str, explorer_url: &str) -> (made: NetworkConfig)
    ensures
        made.name@ == name@,
        made.chain_id == chain_id,
        made.rpc_url@ == rpc_url@,
        made.explorer_url@ == explorer_url@,
{
    NetworkConfig {
        name: name.to_owned(),
        chain_id,
        rpc_url: rpc_url.to_owned(),
        explorer_url: explorer_url.to_owned(),
    }
}

fn contract(label: &str, address: &str) -> (made: KnownContract)
    ensures
        made.label@ == label@,
        made.address@ == address@,
{
    KnownContract { label: label.to_owned(), address: address.to_owned() }
}

impl Default for WhaleTrackerConfig {
    /// Four networks, a hundred requests a minute to each of them, and the
    /// detectors' usual lines.
    fn default() -> (config: WhaleTrackerConfig)
        ensures
            config.min_transaction_threshold == DEFAULT_MIN_TRANSACTION,
            config.zk_proof_enabled,
            config.real_time_monitoring,
            config.alerts_enabled,
            config.max_requests_per_window == 100,
            config.window_duration == 60_000,
            config.large_volume_threshold == DEFAULT_LARGE_VOLUME,
            config.volume_z_threshold == DEFAULT_VOLUME_Z,
            config.timing_z_threshold == DEFAULT_TIMING_Z,
            config.coordinated_min_group_size == DEFAULT_GROUP_SIZE,
            config.wash_trade_confidence == DEFAULT_WASH_CONFIDENCE,
            config.tracking_networks.len() == 4,
            config.tracking_networks[0].name@ == "Ethereum"@,
            config.tracking_networks[0].chain_id == 1,
            config.tracking_networks[1].name@ == "Polygon"@,
            config.tracking_networks[1].chain_id == 137,
            config.tracking_networks[2].name@ == "Arbitrum"@,
            config.tracking_networks[2].chain_id == 42161,
            config.tracking_networks[3].name@ == "Optimism"@,
            config.tracking_networks[3].chain_id == 10,
            config.bridge_contracts.len() == 1,
            config.bridge_contracts[0].label@ == "CrossChain Bridge"@,
            config.bridge_contracts[0].address@ == "0x88a2C09d9B3a0Cb8b3E1D5D5c2F1c7A8d3B5e9f1"@,
            config.defi_protocols.len() == 2,
            config.defi_protocols[0].label@ == "Uniswap V2"@,
            config.defi_protocols[0].address@ == "0x7a250d5630B4cF539739dF2C5dAcb4c659F2488D"@,
            config.defi_protocols[1].label@ == "Uniswap V3"@,
            config.defi_protocols[1].address@ == "0xE592427A0AEce92De3Edee1F18E0157C05861564"@,
            config.acceptable(),
    {
        let mut tracking_networks: Vec<NetworkConfig> = Vec::new();
        tracking_networks.push(
            network(
                "Ethereum",
                1,
                "https://eth-mainnet.g.alchemy.com/v2/demo",
                "https://etherscan.io",
            ),
        );
        tracking_networks.push(
            network("Polygon", 137, "https://polygon-rpc.com", "https://polygonscan.com"),
        );
        tracking_networks.push(
            network("Arbitrum", 42161, "https://arb1.arbitrum.io/rpc", "https://arbiscan.io"),
        );
        tracking_networks.push(
            network(
                "Optimism",
                10,
                "https://mainnet.optimism.io",
                "https://optimistic.etherscan.io",
            ),
        );
        let mut bridge_contracts: Vec<KnownContract> = Vec::new();
        bridge_contracts.push(
            contract("CrossChain Bridge", "0x88a2C09d9B3a0Cb8b3E1D5D5c2F1c7A8d3B5e9f1"),
        );
        let mut defi_protocols: Vec<KnownContract> = Vec::new();
        defi_protocols.push(contract("Uniswap V2", "0x7a250d5630B4cF539739dF2C5dAcb4c659F2488D"));
        defi_protocols.push(contract("Uniswap V3", "0xE592427A0AEce92De3Edee1F18E0157C05861564"));
        WhaleTrackerConfig {
            min_transaction_threshold: DEFAULT_MIN_TRANSACTION,
            tracking_networks,
            zk_proof_enabled: true,
            real_time_monitoring: true,
            alerts_enabled: true,
            max_requests_per_window: 100,
            window_duration: 60_000,
            large_volume_threshold: DEFAULT_LARGE_VOLUME,
            volume_z_threshold: DEFAULT_VOLUME_Z,
            timing_z_threshold: DEFAULT_TIMING_Z,
            coordinated_min_group_size: DEFAULT_GROUP_SIZE,
            wash_trade_confidence: DEFAULT_WASH_CONFIDENCE,
            bridge_contracts,
            defi_protocols,
        }
    }
}

impl WhaleTrackerConfig {
    /// What a configuration has to meet: some request is allowed per
    /// window, and the confidence is no more than one.
    pub open spec fn acceptable(&self) -> bool {
        self.max_requests_per_window >= 1 && self.wash_trade_confidence <= BASIS_POINTS_ONE
    }

    /// Checks the configuration.
    pub fn validate(&self) -> (checked: Result<(), ZKWatchError>)
        ensures
            checked is Ok <==> self.acceptable(),
            checked matches Err(e) ==> e is ConfigurationInvalid,
    {
        if self.max_requests_per_window >= 1 && self.wash_trade_confidence <= BASIS_POINTS_ONE {
            Ok(())
        } else {
            Err(ZKWatchError::ConfigurationInvalid)
        }
    }
}

} // verus!
