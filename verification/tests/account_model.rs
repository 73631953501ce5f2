use shade::account::{ContractError, WithdrawalRequest, WithdrawalStatus};

#[test]
fn account_error_codes() {
    assert_eq!(ContractError::AlreadyInitialized.code(), 1);
    assert_eq!(ContractError::NotInitialized.code(), 2);
    assert_eq!(ContractError::NotAuthorized.code(), 3);
    assert_eq!(ContractError::InsufficientBalance.code(), 4);
    assert_eq!(ContractError::AccountRestricted.code(), 5);
    assert_eq!(ContractError::InvoiceNotFound.code(), 6);
    assert_eq!(ContractError::InvalidInvoiceStatus.code(), 7);
}

#[test]
fn withdrawal_status_codes() {
    assert_eq!(WithdrawalStatus::Pending.code(), 0);
    assert_eq!(WithdrawalStatus::Approved.code(), 1);
    assert_eq!(WithdrawalStatus::Executed.code(), 2);
    let r = WithdrawalRequest { id: 1, token: 2, amount: 30, recipient: 4, approvals: vec![5], status: WithdrawalStatus::Pending };
    assert_eq!(r.clone().approvals, vec![5]);
}
