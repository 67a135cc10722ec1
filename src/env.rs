use vstd::prelude::*;

verus! {

/// Access to the transaction being run and a verdict on its attributes.
pub trait ExtTxEnv {
    type TxAttributes;

    fn get_curr_tx(&self) -> Self::TxAttributes;

    fn is_valid(&self, attrs: Self::TxAttributes) -> bool;
}

/// Access to blocks by number and a verdict on their attributes.
pub trait ExtBlockEnv {
    type BlockAttributes;

    type BlockNum;

    fn get_block(&self, num: Self::BlockNum) -> Self::BlockAttributes;

    fn is_valid_block(&self, attrs: Self::BlockAttributes) -> bool;
}

/// Access to the chain configuration, the chain and fork it names, and a
/// verdict on a configuration.
pub trait ExtChainCfg {
    type CfgParams: ChainIdentifiable;

    fn get_cfg(&self) -> Self::CfgParams;

    fn get_chain_id(&self) -> <<Self as ExtChainCfg>::CfgParams as ChainIdentifiable>::ChainId;

    fn get_fork(&self) -> <<Self as ExtChainCfg>::CfgParams as ChainIdentifiable>::ChainId;

    fn is_valid_cfg(&self, cfg: Self::CfgParams) -> bool;
}

/// Parameters that name a chain and a fork of it.
pub trait ChainIdentifiable {
    type ChainId;

    type ForkId;
}

} // verus!
