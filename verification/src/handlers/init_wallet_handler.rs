use vstd::prelude::*;
use crate::account::AccountInfo;
use crate::error::WalletError;
use crate::instruction::ProgramConfigUpdate;
use crate::model::program_config::{ProgramConfig, ProgramConfigView};
use crate::model::signer::Signer;
use crate::version::VERSION;

verus! {

/// Why a configuration cannot be taken into use, if it cannot: it is in use
/// already, or the first policy is not acceptable.
pub open spec fn handle_error(
    wallet: ProgramConfigView,
    initial_config: ProgramConfigUpdate,
) -> Option<WalletError> {
    if wallet.is_initialized {
        Some(WalletError::AccountAlreadyInitialized)
    } else if !wallet.accepts(initial_config) {
        Some(WalletError::InvalidArgument)
    } else {
        None
    }
}

/// What taking a configuration into use comes to: refused, it changes
/// nothing; else the configuration is in use under the current version, with
/// the given assistant and the first policy applied.
pub open spec fn handle_ensures(
    wallet_before: ProgramConfig,
    wallet_after: ProgramConfig,
    assistant_account_info: AccountInfo,
    initial_config: ProgramConfigUpdate,
    r: Result<(), WalletError>,
) -> bool {
    match handle_error(wallet_before@, initial_config) {
        Some(e) => r == Err::<(), WalletError>(e) && wallet_after == wallet_before,
        None => r is Ok && wallet_after@ == (ProgramConfigView {
            is_initialized: true,
            version: VERSION,
            assistant: Signer { key: assistant_account_info.key },
            ..wallet_before@.updated(initial_config)
        }),
    }
}

/// Takes a configuration into use under the current version of the record:
/// the account given as assistant becomes the assistant, and the first
/// policy is applied as a change is. Refused, with the configuration as it
/// was, where it is in use already or the policy is not acceptable.
pub fn handle(
    wallet: &mut ProgramConfig,
    assistant_account_info: &AccountInfo,
    initial_config: &ProgramConfigUpdate,
) -> (r: Result<(), WalletError>)
    requires
        old(wallet).wf(),
    ensures
        final(wallet).wf(),
        handle_ensures(*old(wallet), *final(wallet), *assistant_account_info, *initial_config, r),
{
    if wallet.is_initialized {
        return Err(WalletError::AccountAlreadyInitialized);
    }
    match wallet.update(initial_config) {
        Ok(()) => {},
        Err(e) => {
            return Err(e);
        },
    }
    wallet.is_initialized = true;
    wallet.version = VERSION;
    wallet.assistant = Signer { key: assistant_account_info.key };
    Ok(())
}

} // verus!
