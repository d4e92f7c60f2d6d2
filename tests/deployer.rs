use chaincerts_core::deployer::{derive_address, Deployer, InitResult};
use chaincerts_core::error::ContractError;

const DID_MODULE: &[u8] = b"\0asm did identity module";

fn bytes(s: &str) -> Vec<u8> {
    s.as_bytes().to_vec()
}

fn hex(b: &[u8]) -> String {
    b.iter().map(|x| format!("{:02x}", x)).collect()
}

fn did_init_args(address: &[u8]) -> Vec<Vec<u8>> {
    let mut authentication = bytes("did:chaincerts:ABC123#key-1");
    authentication.extend_from_slice(address);
    vec![
        bytes("did:chaincerts:ABC123"),
        authentication,
        bytes("https://www.w3.org/ns/did/v1"),
        bytes("https://www.example.com/context/v1"),
        bytes("otp"),
        bytes("VerifiableCredential"),
        bytes("https://did.chaincerts.co/ABC123"),
        Vec::new(),
    ]
}

fn check_document(deployer: &Deployer, contract_id: &Vec<u8>, module_id: &Vec<u8>, address: &[u8]) {
    let instance = deployer.instance(contract_id).expect("instance is deployed");
    assert_eq!(&instance.module_id, module_id);
    assert_eq!(instance.init_args, did_init_args(address));
    assert_eq!(instance.init_args[0], bytes("did:chaincerts:ABC123"));
    assert_eq!(instance.init_args[2], bytes("https://www.w3.org/ns/did/v1"));
    assert_eq!(instance.init_args[3], bytes("https://www.example.com/context/v1"));
    assert_eq!(instance.init_args[5], bytes("VerifiableCredential"));
    assert_eq!(instance.init_args[6], bytes("https://did.chaincerts.co/ABC123"));
}

#[test]
fn test_from_contract() {
    let mut deployer = Deployer::new();
    let deployer_contract = vec![7u8; 32];
    let wasm_id = deployer.upload_module(&DID_MODULE.to_vec());

    let salt = [0u8; 32];
    let address = vec![42u8; 32];
    let init_args = did_init_args(&address);
    // The deployer contract authorizes calls made in its own name.
    let authorizers = vec![deployer_contract.clone()];
    let (contract_id, init_result) = deployer
        .deploy(&deployer_contract, &authorizers, &wasm_id, &salt, init_args, Ok(InitResult::Void))
        .unwrap();
    assert!(init_result.is_void());
    check_document(&deployer, &contract_id, &wasm_id, &address);
}

#[test]
fn test_deploy_from_address() {
    let mut deployer_ledger = Deployer::new();
    let wasm_hash = deployer_ledger.upload_module(&DID_MODULE.to_vec());
    let deployer = vec![9u8; 32];

    let salt = [0u8; 32];
    let address = vec![43u8; 32];
    let init_fn_args = did_init_args(&address);
    let authorizers = vec![deployer.clone()];
    let (contract_id, init_result) = deployer_ledger
        .deploy(&deployer, &authorizers, &wasm_hash, &salt, init_fn_args, Ok(InitResult::Void))
        .unwrap();
    assert!(init_result.is_void());
    assert_eq!(contract_id, derive_address(&deployer, &salt));
    check_document(&deployer_ledger, &contract_id, &wasm_hash, &address);
}

#[test]
fn module_id_is_sha256_of_code() {
    let mut d = Deployer::new();
    let id = d.upload_module(&bytes("abc"));
    assert_eq!(hex(&id), "ba7816bf8f01cfea414140de5dae2223b00361a396177a9cb410ff61f20015ad");
    assert!(d.has_module(&id));
}

#[test]
fn upload_twice_gives_same_id() {
    let mut d = Deployer::new();
    let first = d.upload_module(&DID_MODULE.to_vec());
    let second = d.upload_module(&DID_MODULE.to_vec());
    assert_eq!(first, second);
    assert!(d.has_module(&first));
    assert!(!d.has_module(&bytes("unknown")));
}

#[test]
fn address_is_digest_of_identity_and_salt() {
    let identity = vec![1u8, 2, 3];
    let salt = [0u8; 32];
    let a = derive_address(&identity, &salt);
    assert_eq!(a, derive_address(&identity, &salt));
    assert_eq!(a.len(), 32);
    let mut preimage = identity.clone();
    preimage.extend_from_slice(&salt);
    let mut d = Deployer::new();
    assert_eq!(a, d.upload_module(&preimage));
    let mut other = [0u8; 32];
    other[31] = 1;
    assert_ne!(a, derive_address(&identity, &other));
    assert_ne!(a, derive_address(&vec![1u8, 2, 4], &salt));
}

#[test]
fn salt_reuse_is_rejected() {
    let mut d = Deployer::new();
    let id = d.upload_module(&DID_MODULE.to_vec());
    let who = vec![5u8; 32];
    let auth = vec![who.clone()];
    let salt = [0u8; 32];
    assert!(d.deploy(&who, &auth, &id, &salt, Vec::new(), Ok(InitResult::Void)).is_ok());
    let again = d.deploy(&who, &auth, &id, &salt, Vec::new(), Ok(InitResult::Void));
    assert!(matches!(again, Err(ContractError::AlreadyDeployed)));
    let mut fresh = [0u8; 32];
    fresh[0] = 1;
    assert!(d.deploy(&who, &auth, &id, &fresh, Vec::new(), Ok(InitResult::Void)).is_ok());
}

#[test]
fn failed_constructor_leaves_no_instance() {
    let mut d = Deployer::new();
    let id = d.upload_module(&DID_MODULE.to_vec());
    let who = vec![5u8; 32];
    let auth = vec![who.clone()];
    let salt = [3u8; 32];
    let failed = d.deploy(&who, &auth, &id, &salt, vec![bytes("x")], Err(bytes("boom")));
    assert!(matches!(failed, Err(ContractError::ConstructorFailed)));
    assert!(d.instance(&derive_address(&who, &salt)).is_none());
    let retry = d.deploy(&who, &auth, &id, &salt, Vec::new(), Ok(InitResult::Value(vec![1, 2])));
    match retry {
        Ok((address, InitResult::Value(v))) => {
            assert_eq!(address, derive_address(&who, &salt));
            assert_eq!(v, vec![1, 2]);
        }
        _ => panic!("retry should succeed"),
    }
}

#[test]
fn unauthorized_deploy_changes_nothing() {
    let mut d = Deployer::new();
    let id = d.upload_module(&DID_MODULE.to_vec());
    let who = vec![5u8; 32];
    let someone_else = vec![6u8; 32];
    let salt = [0u8; 32];
    let r = d.deploy(&who, &vec![someone_else], &id, &salt, Vec::new(), Ok(InitResult::Void));
    assert!(matches!(r, Err(ContractError::Unauthorized)));
    assert!(d.instance(&derive_address(&who, &salt)).is_none());
    assert!(matches!(d.prepare_deploy(&who, &Vec::new(), &id, &salt), Err(ContractError::Unauthorized)));
}

#[test]
fn unknown_module_is_refused() {
    let mut d = Deployer::new();
    let who = vec![5u8; 32];
    let salt = [0u8; 32];
    let r = d.deploy(&who, &vec![who.clone()], &bytes("no such module"), &salt, Vec::new(), Ok(InitResult::Void));
    assert!(matches!(r, Err(ContractError::ModuleNotFound)));
}

#[test]
fn prepare_gives_the_derived_address() {
    let mut d = Deployer::new();
    let id = d.upload_module(&DID_MODULE.to_vec());
    let who = vec![5u8; 32];
    let salt = [8u8; 32];
    let a = d.prepare_deploy(&who, &vec![who.clone()], &id, &salt).unwrap();
    assert_eq!(a, derive_address(&who, &salt));
    assert!(d.instance(&a).is_none());
}
