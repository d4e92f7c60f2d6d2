use vstd::prelude::*;
use sha2::Digest;
use crate::error::ContractError;
use crate::pairs::{pairs_map, keys_unique, lemma_pairs_map_push, lemma_pairs_map_lookup};

verus! {

/// The SHA-256 digest of a byte string.
pub uninterp spec fn sha256_of(data: Seq<u8>) -> Seq<u8>;

/// Relies on sha2's `Sha256::digest`: the SHA-256 digest of the bytes, which
/// is always 32 bytes long.
#[verifier::external_body]
fn sha256(data: &Vec<u8>) -> (r: Vec<u8>)
    ensures
        r@ == sha256_of(data@),
        r@.len() == 32,
{
    sha2::Sha256::digest(data.as_slice()).to_vec()
}

/// The identifier of a module: the digest of its code.
pub open spec fn module_id_of(code: Seq<u8>) -> Seq<u8> {
    sha256_of(code)
}

/// The address of the instance that `identity` deploys with `salt`: the
/// digest of the identity followed by the salt.
pub open spec fn derived_address(identity: Seq<u8>, salt: Seq<u8>) -> Seq<u8> {
    sha256_of(identity + salt)
}

/// The byte strings of a list of byte vectors.
pub open spec fn bytes_view(v: Seq<Vec<u8>>) -> Seq<Seq<u8>> {
    v.map_values(|b: Vec<u8>| b@)
}

/// An uploaded module image under its identifier.
pub struct Module {
    pub id: Vec<u8>,
    pub code: Vec<u8>,
}

/// A deployed instance: where it lives, the module it runs, and the
/// arguments its constructor was given.
pub struct Instance {
    pub address: Vec<u8>,
    pub module_id: Vec<u8>,
    pub init_args: Vec<Vec<u8>>,
}

/// What a constructor returned: nothing, or a value.
pub enum InitResult {
    Void,
    Value(Vec<u8>),
}

impl InitResult {
    /// Whether the constructor returned nothing.
    pub fn is_void(&self) -> (r: bool)
        ensures
            r == (self is Void),
    {
        match self {
            InitResult::Void => true,
            InitResult::Value(_) => false,
        }
    }
}

/// What a deployed instance is, seen from its address: its module and its
/// constructor arguments.
pub type InstanceView = (Seq<u8>, Seq<Seq<u8>>);

/// The modules as identifier/code pairs.
pub open spec fn module_pairs(s: Seq<Module>) -> Seq<(Seq<u8>, Seq<u8>)> {
    s.map_values(|m: Module| (m.id@, m.code@))
}

/// The instances as address/instance pairs.
pub open spec fn instance_pairs(s: Seq<Instance>) -> Seq<(Seq<u8>, InstanceView)> {
    s.map_values(|x: Instance| (x.address@, (x.module_id@, bytes_view(x.init_args@))))
}

/// The module registry after `code` is uploaded: unchanged when its
/// identifier is already there, else with the code added under it.
pub open spec fn after_upload(modules: Map<Seq<u8>, Seq<u8>>, code: Seq<u8>) -> Map<Seq<u8>, Seq<u8>> {
    if modules.contains_key(module_id_of(code)) {
        modules
    } else {
        modules.insert(module_id_of(code), code)
    }
}

/// The checks that a deployment passes before its constructor runs, in
/// order: the deploying identity authorized the call, no instance lives at
/// the derived address yet, and the module was uploaded. On success, the
/// address of the new instance.
pub open spec fn deploy_check(
    modules: Map<Seq<u8>, Seq<u8>>,
    instances: Map<Seq<u8>, InstanceView>,
    deployer: Seq<u8>,
    authorizers: Seq<Seq<u8>>,
    module_id: Seq<u8>,
    salt: Seq<u8>,
) -> Result<Seq<u8>, ContractError> {
    if !authorizers.contains(deployer) {
        Err(ContractError::Unauthorized)
    } else if instances.contains_key(derived_address(deployer, salt)) {
        Err(ContractError::AlreadyDeployed)
    } else if !modules.contains_key(module_id) {
        Err(ContractError::ModuleNotFound)
    } else {
        Ok(derived_address(deployer, salt))
    }
}

/// The instances after a deployment whose constructor succeeded or not: the
/// new instance is there only when the checks passed and the constructor
/// succeeded.
pub open spec fn instances_after_deploy(
    modules: Map<Seq<u8>, Seq<u8>>,
    instances: Map<Seq<u8>, InstanceView>,
    deployer: Seq<u8>,
    authorizers: Seq<Seq<u8>>,
    module_id: Seq<u8>,
    salt: Seq<u8>,
    init_args: Seq<Seq<u8>>,
    constructed: bool,
) -> Map<Seq<u8>, InstanceView> {
    match deploy_check(modules, instances, deployer, authorizers, module_id, salt) {
        Ok(address) => if constructed {
            instances.insert(address, (module_id, init_args))
        } else {
            instances
        },
        Err(_) => instances,
    }
}

/// A copy of a byte string.
fn copy_bytes(b: &Vec<u8>) -> (r: Vec<u8>)
    ensures
        r@ == b@,
{
    let mut r: Vec<u8> = Vec::new();
    let mut i: usize = 0;
    while i < b.len()
        invariant
            0 <= i <= b@.len(),
            r@ == b@.take(i as int),
        decreases b@.len() - i,
    {
        r.push(b[i]);
        i = i + 1;
        assert(r@ =~= b@.take(i as int));
    }
    assert(b@.take(b@.len() as int) =~= b@);
    r
}

/// Whether a byte string equals another.
pub fn bytes_eq(a: &Vec<u8>, b: &Vec<u8>) -> (r: bool)
    ensures
        r == (a@ == b@),
{
    if a.len() != b.len() {
        return false;
    }
    let mut i: usize = 0;
    while i < a.len()
        invariant
            a@.len() == b@.len(),
            0 <= i <= a@.len(),
            forall|j: int| 0 <= j < i ==> a@[j] == b@[j],
        decreases a@.len() - i,
    {
        if a[i] != b[i] {
            return false;
        }
        i = i + 1;
    }
    assert(a@ =~= b@);
    true
}

/// Derives the address of the instance that `identity` deploys with `salt`.
/// The same identity and salt always give the same address.
pub fn derive_address(identity: &Vec<u8>, salt: &[u8; 32]) -> (r: Vec<u8>)
    ensures
        r@ == derived_address(identity@, salt@),
        r@.len() == 32,
{
    let mut preimage = copy_bytes(identity);
    let mut i: usize = 0;
    while i < 32
        invariant
            0 <= i <= 32,
            salt@.len() == 32,
            preimage@ == identity@ + salt@.take(i as int),
        decreases 32 - i,
    {
        preimage.push(salt[i]);
        i = i + 1;
        assert(preimage@ =~= identity@ + salt@.take(i as int));
    }
    assert(salt@.take(32) =~= salt@);
    sha256(&preimage)
}

/// Whether `identity` is among those that authorized the current call.
fn is_authorized(identity: &Vec<u8>, authorizers: &Vec<Vec<u8>>) -> (r: bool)
    ensures
        r == bytes_view(authorizers@).contains(identity@),
{
    let mut i: usize = 0;
    while i < authorizers.len()
        invariant
            0 <= i <= authorizers@.len(),
            forall|j: int| 0 <= j < i ==> authorizers@[j]@ != identity@,
        decreases authorizers@.len() - i,
    {
        if bytes_eq(&authorizers[i], identity) {
            assert(bytes_view(authorizers@)[i as int] == identity@);
            return true;
        }
        i = i + 1;
    }
    assert(!bytes_view(authorizers@).contains(identity@)) by {
        if bytes_view(authorizers@).contains(identity@) {
            let j = choose|j: int| 0 <= j < bytes_view(authorizers@).len() && bytes_view(authorizers@)[j] == identity@;
            assert(authorizers@[j]@ == identity@);
        }
    }
    false
}

/// The module registry and the deployed instances of one ledger.
pub struct Deployer {
    modules: Vec<Module>,
    instances: Vec<Instance>,
}

impl Deployer {
    /// The uploaded modules, by identifier.
    pub closed spec fn modules_view(&self) -> Map<Seq<u8>, Seq<u8>> {
        pairs_map(module_pairs(self.modules@))
    }

    /// The deployed instances, by address.
    pub closed spec fn instances_view(&self) -> Map<Seq<u8>, InstanceView> {
        pairs_map(instance_pairs(self.instances@))
    }

    /// No identifier names two modules and no address holds two instances.
    pub closed spec fn wf(&self) -> bool {
        &&& keys_unique(module_pairs(self.modules@))
        &&& keys_unique(instance_pairs(self.instances@))
    }

    /// A ledger with no module and no instance.
    pub fn new() -> (d: Deployer)
        ensures
            d.wf(),
            d.modules_view() == Map::<Seq<u8>, Seq<u8>>::empty(),
            d.instances_view() == Map::<Seq<u8>, InstanceView>::empty(),
    {
        let d = Deployer { modules: Vec::new(), instances: Vec::new() };
        assert(module_pairs(d.modules@) =~= Seq::<(Seq<u8>, Seq<u8>)>::empty());
        assert(instance_pairs(d.instances@) =~= Seq::<(Seq<u8>, InstanceView)>::empty());
        d
    }

    /// The position of the module with identifier `id`, if there is one.
    fn find_module(&self, id: &Vec<u8>) -> (r: Option<usize>)
        ensures
            match r {
                Some(i) => i < self.modules@.len() && self.modules@[i as int].id@ == id@,
                None => forall|j: int| 0 <= j < self.modules@.len() ==> self.modules@[j].id@ != id@,
            },
    {
        let mut i: usize = 0;
        while i < self.modules.len()
            invariant
                0 <= i <= self.modules@.len(),
                forall|j: int| 0 <= j < i ==> self.modules@[j].id@ != id@,
            decreases self.modules@.len() - i,
        {
            if bytes_eq(&self.modules[i].id, id) {
                return Some(i);
            }
            i = i + 1;
        }
        None
    }

    /// The position of the instance at `address`, if there is one.
    fn find_instance(&self, address: &Vec<u8>) -> (r: Option<usize>)
        ensures
            match r {
                Some(i) => i < self.instances@.len() && self.instances@[i as int].address@ == address@,
                None => forall|j: int| 0 <= j < self.instances@.len() ==> self.instances@[j].address@ != address@,
            },
    {
        let mut i: usize = 0;
        while i < self.instances.len()
            invariant
                0 <= i <= self.instances@.len(),
                forall|j: int| 0 <= j < i ==> self.instances@[j].address@ != address@,
            decreases self.instances@.len() - i,
        {
            if bytes_eq(&self.instances[i].address, address) {
                return Some(i);
            }
            i = i + 1;
        }
        None
    }

    /// Whether a module with identifier `id` was uploaded.
    pub fn has_module(&self, id: &Vec<u8>) -> (r: bool)
        ensures
            r == self.modules_view().contains_key(id@),
    {
        proof {
            lemma_pairs_map_lookup(module_pairs(self.modules@));
        }
        match self.find_module(id) {
            Some(i) => {
                assert(module_pairs(self.modules@)[i as int].0 == id@);
                true
            },
            None => {
                assert(!self.modules_view().contains_key(id@)) by {
                    if self.modules_view().contains_key(id@) {
                        let j = choose|j: int|
                            0 <= j < module_pairs(self.modules@).len() && module_pairs(self.modules@)[j].0 == id@;
                        assert(self.modules@[j].id@ == id@);
                    }
                }
                false
            },
        }
    }

    /// The instance at `address`, if one was deployed there.
    pub fn instance(&self, address: &Vec<u8>) -> (r: Option<&Instance>)
        requires
            self.wf(),
        ensures
            r is None <==> !self.instances_view().contains_key(address@),
            r matches Some(x) ==> x.address@ == address@ && self.instances_view()[address@] == (
            x.module_id@,
            bytes_view(x.init_args@),
            ),
    {
        proof {
            lemma_pairs_map_lookup(instance_pairs(self.instances@));
        }
        match self.find_instance(address) {
            Some(i) => {
                assert(instance_pairs(self.instances@)[i as int].0 == address@);
                Some(&self.instances[i])
            },
            None => {
                assert(!self.instances_view().contains_key(address@)) by {
                    if self.instances_view().contains_key(address@) {
                        let j = choose|j: int|
                            0 <= j < instance_pairs(self.instances@).len() && instance_pairs(self.instances@)[j].0
                                == address@;
                        assert(self.instances@[j].address@ == address@);
                    }
                }
                None
            },
        }
    }

    /// Uploads a module image and returns its identifier, the digest of the
    /// code. Uploading code whose identifier is already registered changes
    /// nothing.
    pub fn upload_module(&mut self, code: &Vec<u8>) -> (id: Vec<u8>)
        requires
            old(self).wf(),
        ensures
            final(self).wf(),
            id@ == module_id_of(code@),
            final(self).modules_view() == after_upload(old(self).modules_view(), code@),
            final(self).instances_view() == old(self).instances_view(),
    {
        let id = sha256(code);
        if !self.has_module(&id) {
            let m = Module { id: copy_bytes(&id), code: copy_bytes(code) };
            let ghost before = self.modules@;
            proof {
                lemma_pairs_map_lookup(module_pairs(before));
            }
            self.modules.push(m);
            proof {
                assert(module_pairs(self.modules@) =~= module_pairs(before).push((id@, code@)));
                lemma_pairs_map_push(module_pairs(before), (id@, code@));
                assert forall|j: int| 0 <= j < before.len() implies module_pairs(before)[j].0 != id@ by {
                    assert(module_pairs(before)[j].0 == before[j].id@);
                }
            }
        }
        id
    }

    /// Runs the checks of a deployment without changing anything: on success,
    /// the address that the new instance would have.
    pub fn prepare_deploy(
        &self,
        deployer: &Vec<u8>,
        authorizers: &Vec<Vec<u8>>,
        module_id: &Vec<u8>,
        salt: &[u8; 32],
    ) -> (r: Result<Vec<u8>, ContractError>)
        requires
            self.wf(),
        ensures
            match deploy_check(
                self.modules_view(),
                self.instances_view(),
                deployer@,
                bytes_view(authorizers@),
                module_id@,
                salt@,
            ) {
                Ok(address) => r is Ok && r->Ok_0@ == address,
                Err(e) => r == Err::<Vec<u8>, ContractError>(e),
            },
    {
        if !is_authorized(deployer, authorizers) {
            return Err(ContractError::Unauthorized);
        }
        let address = derive_address(deployer, salt);
        if self.instance(&address).is_some() {
            return Err(ContractError::AlreadyDeployed);
        }
        if !self.has_module(module_id) {
            return Err(ContractError::ModuleNotFound);
        }
        Ok(address)
    }

    /// Deploys `module_id` for `deployer` at the address derived from the
    /// deployer and `salt`, handing `init_args` to the constructor, whose
    /// outcome is `init_outcome`. The new instance is kept only when every
    /// check passes and the constructor succeeds; on any failure the ledger
    /// is left as it was. On success, the new address and what the
    /// constructor returned.
    pub fn deploy(
        &mut self,
        deployer: &Vec<u8>,
        authorizers: &Vec<Vec<u8>>,
        module_id: &Vec<u8>,
        salt: &[u8; 32],
        init_args: Vec<Vec<u8>>,
        init_outcome: Result<InitResult, Vec<u8>>,
    ) -> (r: Result<(Vec<u8>, InitResult), ContractError>)
        requires
            old(self).wf(),
        ensures
            final(self).wf(),
            final(self).modules_view() == old(self).modules_view(),
            final(self).instances_view() == instances_after_deploy(
                old(self).modules_view(),
                old(self).instances_view(),
                deployer@,
                bytes_view(authorizers@),
                module_id@,
                salt@,
                bytes_view(init_args@),
                init_outcome is Ok,
            ),
            match deploy_check(
                old(self).modules_view(),
                old(self).instances_view(),
                deployer@,
                bytes_view(authorizers@),
                module_id@,
                salt@,
            ) {
                Err(e) => r == Err::<(Vec<u8>, InitResult), ContractError>(e),
                Ok(address) => match init_outcome {
                    Err(_) => r == Err::<(Vec<u8>, InitResult), ContractError>(
                        ContractError::ConstructorFailed,
                    ),
                    Ok(v) => r is Ok && r->Ok_0.0@ == address && r->Ok_0.1 == v,
                },
            },
    {
        let address = match self.prepare_deploy(deployer, authorizers, module_id, salt) {
            Ok(a) => a,
            Err(e) => {
                return Err(e);
            },
        };
        match init_outcome {
            Err(_) => Err(ContractError::ConstructorFailed),
            Ok(v) => {
                let x = Instance { address: copy_bytes(&address), module_id: copy_bytes(module_id), init_args };
                let ghost before = self.instances@;
                let ghost p = (address@, (module_id@, bytes_view(init_args@)));
                proof {
                    lemma_pairs_map_lookup(instance_pairs(before));
                    assert forall|j: int| 0 <= j < before.len() implies instance_pairs(before)[j].0 != address@ by {
                        assert(instance_pairs(before)[j].0 == before[j].address@);
                        if before[j].address@ == address@ {
                            assert(pairs_map(instance_pairs(before)).contains_key(address@));
                        }
                    }
                }
                self.instances.push(x);
                proof {
                    assert(instance_pairs(self.instances@) =~= instance_pairs(before).push(p));
                    lemma_pairs_map_push(instance_pairs(before), p);
                }
                Ok((address, v))
            },
        }
    }
}

/// Address derivation is deterministic: two derivations from the same
/// identity and salt give the same address.
pub proof fn lemma_address_deterministic(identity: Seq<u8>, salt: Seq<u8>, first: Seq<u8>, second: Seq<u8>)
    requires
        first == derived_address(identity, salt),
        second == derived_address(identity, salt),
    ensures
        first == second,
{
}

/// Uploading the same code twice gives the same identifier both times, and
/// the second upload adds no entry to the registry.
pub proof fn lemma_upload_idempotent(modules: Map<Seq<u8>, Seq<u8>>, code: Seq<u8>)
    ensures
        after_upload(after_upload(modules, code), code) == after_upload(modules, code),
        after_upload(modules, code).contains_key(module_id_of(code)),
{
}

/// A deployment whose constructor fails leaves the instances as they were:
/// nothing lives at the derived address, and a new attempt with the same
/// identity and salt meets the same checks as the first.
pub proof fn lemma_failed_constructor_rolls_back(
    modules: Map<Seq<u8>, Seq<u8>>,
    instances: Map<Seq<u8>, InstanceView>,
    deployer: Seq<u8>,
    authorizers: Seq<Seq<u8>>,
    module_id: Seq<u8>,
    salt: Seq<u8>,
    init_args: Seq<Seq<u8>>,
)
    requires
        deploy_check(modules, instances, deployer, authorizers, module_id, salt) is Ok,
    ensures
        instances_after_deploy(modules, instances, deployer, authorizers, module_id, salt, init_args, false)
            == instances,
        !instances_after_deploy(modules, instances, deployer, authorizers, module_id, salt, init_args, false)
            .contains_key(derived_address(deployer, salt)),
        deploy_check(
            modules,
            instances_after_deploy(modules, instances, deployer, authorizers, module_id, salt, init_args, false),
            deployer,
            authorizers,
            module_id,
            salt,
        ) == deploy_check(modules, instances, deployer, authorizers, module_id, salt),
{
}

/// After a successful deployment, deploying again with the same identity,
/// salt and authorizations is refused with `AlreadyDeployed`.
pub proof fn lemma_salt_reuse_rejected(
    modules: Map<Seq<u8>, Seq<u8>>,
    instances: Map<Seq<u8>, InstanceView>,
    deployer: Seq<u8>,
    authorizers: Seq<Seq<u8>>,
    module_id: Seq<u8>,
    salt: Seq<u8>,
    init_args: Seq<Seq<u8>>,
)
    requires
        deploy_check(modules, instances, deployer, authorizers, module_id, salt) is Ok,
    ensures
        deploy_check(
            modules,
            instances_after_deploy(modules, instances, deployer, authorizers, module_id, salt, init_args, true),
            deployer,
            authorizers,
            module_id,
            salt,
        ) == Err::<Seq<u8>, ContractError>(ContractError::AlreadyDeployed),
{
}

/// A deployment that the deploying identity did not authorize changes no
/// instance.
pub proof fn lemma_unauthorized_changes_nothing(
    modules: Map<Seq<u8>, Seq<u8>>,
    instances: Map<Seq<u8>, InstanceView>,
    deployer: Seq<u8>,
    authorizers: Seq<Seq<u8>>,
    module_id: Seq<u8>,
    salt: Seq<u8>,
    init_args: Seq<Seq<u8>>,
    constructed: bool,
)
    requires
        !authorizers.contains(deployer),
    ensures
        deploy_check(modules, instances, deployer, authorizers, module_id, salt)
            == Err::<Seq<u8>, ContractError>(ContractError::Unauthorized),
        instances_after_deploy(modules, instances, deployer, authorizers, module_id, salt, init_args, constructed)
            == instances,
{
}

} // verus!
