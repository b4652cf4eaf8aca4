use kamino::argument_types::{
    get_vmss_sig, is_subscription_id, is_vmss_name, is_vmss_node, accept, number_at_least,
    value_minimum_check, ArgumentValidationError, HistorySize, LogPrefix, MaximumImageAge,
    MinimumCandidates, MinimumReadyTime, NewUpdatedNodes, NodeName, SubscriptionId, VmssName,
};

#[test]
fn test_log_prefix() {
    assert_eq!(LogPrefix::from_str("~!}[/.09az_|").unwrap().to_string(), "~!}[/.09az_|");

    // failure cases:
    assert!(LogPrefix::from_str("~!}[/.09az_|:").is_err());
    assert!(LogPrefix::from_str(" ~!}[/.09az_|").is_err());
}

#[test]
fn test_new_updated_nodes_constructor() {
    assert_eq!(NewUpdatedNodes::from_str("0").unwrap().as_u32(), 0);
    assert_eq!(NewUpdatedNodes::from_str("1028").unwrap().as_u32(), 1028);
    assert_eq!(NewUpdatedNodes::from_str("1234567890").unwrap().as_u32(), 1234567890);

    // failure cases:
    assert!(NewUpdatedNodes::from_str("").is_err());
    assert!(NewUpdatedNodes::from_str("-1").is_err());
    assert!(NewUpdatedNodes::from_str("1A").is_err());
    assert!(NewUpdatedNodes::from_str("17.1").is_err());
    assert!(NewUpdatedNodes::from_str("/").is_err());
    assert!(NewUpdatedNodes::from_str(":").is_err());
}

#[test]
fn test_value_minimum_check() {
    assert!(value_minimum_check("0", 0).is_ok());
    assert!(value_minimum_check("1234567890", 0).is_ok());

    // false/failure cases
    assert!(value_minimum_check("3", 10).is_err());
    assert!(value_minimum_check("-1", 10).is_err());
    assert!(value_minimum_check("pure alphabetic string", 10).is_err());
    assert!(value_minimum_check("123alphanumeric", 10).is_err());
    assert!(value_minimum_check("/", 10).is_err());
    assert!(value_minimum_check(":", 10).is_err());
}

#[test]
fn test_is_vmss_node() {
    assert!(is_vmss_node("k8s-pool-131414-vmss0003ax").is_ok());
    assert!(is_vmss_node("k8s-pool-131414-vmss000000").is_ok());
    assert!(is_vmss_node("k8s-pool-131414-vmss999999").is_ok());
    assert!(is_vmss_node("k8s-pool-131414-vmssaaaaaa").is_ok());
    assert!(is_vmss_node("k8s-pool-131414-vmsszzzzzz").is_ok());
    assert!(is_vmss_node("A-vmss0003ax").is_ok());
    assert!(is_vmss_node("_-vmss0003az").is_ok());

    // false/failure cases
    assert!(is_vmss_node("k8s-pool-131414-Vmss0003aX").is_err());
    assert!(is_vmss_node("k8s-pool-131414-vmss0003aX").is_err());
    assert!(is_vmss_node("k8s-pool-131414-vmss//////").is_err());
    assert!(is_vmss_node("k8s-pool-131414-vmss::::::").is_err());
    assert!(is_vmss_node("k8s-pool-131414-vmss``````").is_err());
    assert!(is_vmss_node("k8s-pool-131414-vmss{{{{{{").is_err());
    assert!(is_vmss_node("A-vmss0003a").is_err());
    assert!(is_vmss_node("A-vmss00003ax").is_err());
    assert!(is_vmss_node("-vmss0003ax").is_err());
    assert!(is_vmss_node("A-vmss0003a|").is_err());
    assert!(is_vmss_node("Avmss0003ax").is_err());
    assert!(is_vmss_node("vmss0003ax").is_err());
}

#[test]
fn test_is_vmss_name() {
    assert!(is_vmss_name("k8s-pool-131414-vmss").is_ok());
    assert!(is_vmss_name("_-vmss").is_ok());

    // false/failure cases
    assert!(is_vmss_name("").is_err());
    assert!(is_vmss_name("-vmss").is_err());
    assert!(is_vmss_name("k8s-pool-131414-vMSs").is_err());
    assert!(is_vmss_name("Avmss").is_err());
    assert!(is_vmss_name("vmss").is_err());
}

#[test]
fn test_subscription_id_constructor() {
    assert!(SubscriptionId::from_str("12345678-1234-1234-1234-123456789012").is_ok());
    assert!(SubscriptionId::from_str("abcdefab-abcd-abcd-abcd-abcddefabcde").is_ok());
    assert!(SubscriptionId::from_str("123DEFab-aB3D-ABC4-AB3D-ABC4DEFABC99").is_ok());

    // false/failure cases
    assert!(SubscriptionId::from_str("12345678_1234_1234_1234_123456789012").is_err());
    assert!(SubscriptionId::from_str("123456780123401234012340123456789012").is_err());
    assert!(SubscriptionId::from_str("abcdefgh-abcd-abcd-abcd-abcddefghijk").is_err());
}

#[test]
fn test_minimum_ready_time_constructor() {
    assert_eq!(MinimumReadyTime::from_str("0").unwrap().as_u32(), 0);
    assert_eq!(MinimumReadyTime::from_str("3").unwrap().as_u32(), 3);
    assert_eq!(MinimumReadyTime::from_str("3s").unwrap().as_u32(), 3);
    assert_eq!(MinimumReadyTime::from_str("5m").unwrap().as_u32(), 300);
    assert_eq!(MinimumReadyTime::from_str("10h").unwrap().as_u32(), 36000);
    assert_eq!(MinimumReadyTime::from_str("10d").unwrap().as_u32(), 864000);

    // failure cases
    assert!(MinimumReadyTime::from_str("10z").is_err());
    assert!(MinimumReadyTime::from_str("5h3m").is_err());
    assert!(MinimumReadyTime::from_str("5ss").is_err());
    assert!(MinimumReadyTime::from_str("5s ").is_err());
    assert!(MinimumReadyTime::from_str("-1").is_err());
    assert!(MinimumReadyTime::from_str("-1s").is_err());
    assert!(MinimumReadyTime::from_str("-100d").is_err());
}

#[test]
fn test_get_vmss_sig() {
    assert_eq!(get_vmss_sig("kubernetes-westus2-17813"), "SIG_kubernetes_westus2_17813");
    assert_eq!(get_vmss_sig("kubernetes-westus2-17813-_- "), "SIG_kubernetes_westus2_17813___ ");
    assert_eq!(get_vmss_sig(""), "SIG_",);
}

#[test]
fn log_prefix_error_is_invalid_log_prefix() {
    assert_eq!(
        LogPrefix::from_str("a:b").unwrap_err(),
        ArgumentValidationError::InvalidLogPrefix
    );
    assert_eq!(
        LogPrefix::from_str("a b").unwrap_err(),
        ArgumentValidationError::InvalidLogPrefix
    );
    assert_eq!(LogPrefix::from_str("").unwrap().to_string(), "");
}

#[test]
fn number_errors_tell_the_two_failures_apart() {
    assert_eq!(value_minimum_check("3", 10), Err(ArgumentValidationError::LessThanMinimum));
    assert_eq!(value_minimum_check("x", 10), Err(ArgumentValidationError::InvalidNumericInput));
    assert_eq!(value_minimum_check("", 0), Err(ArgumentValidationError::InvalidNumericInput));
    assert_eq!(value_minimum_check("10", 10), Ok(()));
    assert_eq!(number_at_least("10", 10), Ok(10));
    assert_eq!(number_at_least("+7", 0), Ok(7));
    assert_eq!(number_at_least("007", 0), Ok(7));
    assert_eq!(number_at_least("4294967295", 0), Ok(4294967295));
    assert_eq!(number_at_least("4294967296", 0), Err(ArgumentValidationError::InvalidNumericInput));
    assert_eq!(number_at_least("+", 0), Err(ArgumentValidationError::InvalidNumericInput));
    assert_eq!(number_at_least("1_000", 0), Err(ArgumentValidationError::InvalidNumericInput));
}

#[test]
fn history_size_is_two_at_least() {
    assert_eq!(HistorySize::from_str("2").unwrap().as_u32(), 2);
    assert_eq!(HistorySize::from_str("3").unwrap().as_u32(), 3);
    assert_eq!(HistorySize::from_str("1").unwrap_err(), ArgumentValidationError::LessThanMinimum);
    assert_eq!(HistorySize::from_str("0").unwrap_err(), ArgumentValidationError::LessThanMinimum);
    assert_eq!(
        HistorySize::from_str("two").unwrap_err(),
        ArgumentValidationError::InvalidNumericInput
    );
}

#[test]
fn minimum_candidates_is_one_at_least() {
    assert_eq!(MinimumCandidates::from_str("1").unwrap().as_u32(), 1);
    assert_eq!(MinimumCandidates::from_str("12").unwrap().as_u32(), 12);
    assert_eq!(
        MinimumCandidates::from_str("0").unwrap_err(),
        ArgumentValidationError::LessThanMinimum
    );
    assert_eq!(
        MinimumCandidates::from_str("-1").unwrap_err(),
        ArgumentValidationError::InvalidNumericInput
    );
}

#[test]
fn maximum_image_age_takes_any_number() {
    assert_eq!(MaximumImageAge::from_str("0").unwrap().as_u32(), 0);
    assert_eq!(MaximumImageAge::from_str("30").unwrap().as_u32(), 30);
    assert_eq!(
        MaximumImageAge::from_str("1.5").unwrap_err(),
        ArgumentValidationError::InvalidNumericInput
    );
}

#[test]
fn minimum_ready_time_refuses_what_does_not_fit() {
    assert_eq!(MinimumReadyTime::from_str("49710d").unwrap().as_u32(), 4294944000);
    assert_eq!(
        MinimumReadyTime::from_str("49711d").unwrap_err(),
        ArgumentValidationError::InvalidNumericInput
    );
    assert_eq!(MinimumReadyTime::from_str("4294967295").unwrap().as_u32(), 4294967295);
    assert_eq!(
        MinimumReadyTime::from_str("4294967295m").unwrap_err(),
        ArgumentValidationError::InvalidNumericInput
    );
    assert!(MinimumReadyTime::from_str("").is_err());
    assert!(MinimumReadyTime::from_str("s").is_err());
    assert!(MinimumReadyTime::from_str("m").is_err());
    assert_eq!(MinimumReadyTime::from_str("+2h").unwrap().as_u32(), 7200);
    assert_eq!(MinimumReadyTime::from_seconds(90).seconds(), 90);
}

#[test]
fn name_errors_name_the_kind_of_name() {
    assert_eq!(is_vmss_node("node"), Err(ArgumentValidationError::InvalidNodeName));
    assert_eq!(is_vmss_name("pool"), Err(ArgumentValidationError::InvalidVmssName));
    assert_eq!(is_subscription_id("guid"), Err(ArgumentValidationError::InvalidSubscriptionId));
    assert_eq!(
        NodeName::from_str("pool-vmss00000").unwrap_err(),
        ArgumentValidationError::InvalidNodeName
    );
    assert_eq!(
        VmssName::from_str("pool-vmss0").unwrap_err(),
        ArgumentValidationError::InvalidVmssName
    );
    assert_eq!(
        SubscriptionId::from_str("").unwrap_err(),
        ArgumentValidationError::InvalidSubscriptionId
    );
}

#[test]
fn names_keep_their_text() {
    assert_eq!(NodeName::from_str("pool-vmss00000a").unwrap().as_str(), "pool-vmss00000a");
    assert_eq!(VmssName::from_str("pool-vmss").unwrap().as_str(), "pool-vmss");
    assert_eq!(VmssName::from_str("pool-vmss").unwrap().to_string(), "pool-vmss");
    assert_eq!(
        SubscriptionId::from_str("12345678-1234-1234-1234-123456789012").unwrap().as_str(),
        "12345678-1234-1234-1234-123456789012"
    );
}

#[test]
fn names_must_match_as_a_whole() {
    assert!(is_vmss_node("a b-vmss000000").is_err());
    assert!(is_vmss_node("pool-vmss000000\n").is_err());
    assert!(is_vmss_name("pool-vmss ").is_err());
    assert!(is_vmss_name(" -vmss").is_err());
    assert!(is_subscription_id("x12345678-1234-1234-1234-123456789012").is_err());
    assert!(is_subscription_id("12345678-1234-1234-1234-123456789012x").is_err());
}

#[test]
fn each_answer_of_a_search_is_mapped() {
    assert_eq!(accept(Some(true), ArgumentValidationError::InvalidNodeName), Ok(()));
    assert_eq!(
        accept(Some(false), ArgumentValidationError::InvalidNodeName),
        Err(ArgumentValidationError::InvalidNodeName)
    );
    assert_eq!(
        accept(None, ArgumentValidationError::InvalidNodeName),
        Err(ArgumentValidationError::UnknownError)
    );
}

#[test]
fn error_messages() {
    assert_eq!(
        ArgumentValidationError::InvalidLogPrefix.message(),
        "Log prefix must not have a ':' or space in it"
    );
    assert_eq!(ArgumentValidationError::InvalidNumericInput.message(), "Invalid number");
    assert_eq!(
        ArgumentValidationError::LessThanMinimum.message(),
        "Input was less than the minimum value"
    );
    assert_eq!(
        ArgumentValidationError::InvalidNodeName.message(),
        "Node name must be a vmss node:  eg k8s-pool-131414-vmss0003ax"
    );
    assert_eq!(
        ArgumentValidationError::InvalidVmssName.message(),
        "VMSS name must be something like:  eg k8s-pool-131414-vmss"
    );
    assert_eq!(
        ArgumentValidationError::InvalidSubscriptionId.message(),
        "Subscription IDs must be in the form of a GUID '12345678-1234-1234-1234-1234567890ab'"
    );
    assert_eq!(ArgumentValidationError::UnknownError.message(), "Unknown error");
}
