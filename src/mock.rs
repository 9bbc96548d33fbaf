//! Mocked contract addresses: the table of contract names to addresses, how
//! declarations merge into it, and the simulated state built from it.
use vstd::prelude::*;

use vstd::string::StrSliceExecFns;

use crate::assoc::{
    assoc_get, assoc_set, has_key, key_index, keys_unique, lemma_assoc_get_set, lemma_assoc_set_unique,
    lemma_key_index_unique,
};
use crate::felt::{felt_of, felt_of_magnitude, is_numeral, numeral_value, parse_unsigned, reduce, Felt};
use crate::text::{str_equals, third_last_path_segment, third_last_segment};

verus! {

/// Mock configuration of one contract.
pub enum MockConfig {
    /// The single address of the contract's only instance.
    SingletonAddress(String),
    /// The addresses of several instances of one contract, by instance name.
    InstanceAddresses(Vec<(String, String)>),
}

/// What a `MockConfig` states.
pub enum MockModel {
    Singleton(Seq<char>),
    Instances(Seq<(Seq<char>, Seq<char>)>),
}

/// The pairs of strings of an instance map, as character sequences.
pub open spec fn pairs_model(v: Seq<(String, String)>) -> Seq<(Seq<char>, Seq<char>)> {
    v.map_values(|p: (String, String)| (p.0@, p.1@))
}

impl MockConfig {
    pub open spec fn model(&self) -> MockModel {
        match self {
            MockConfig::SingletonAddress(a) => MockModel::Singleton(a@),
            MockConfig::InstanceAddresses(m) => MockModel::Instances(pairs_model(m@)),
        }
    }

    /// An instance map names each instance once.
    pub open spec fn wf(&self) -> bool {
        match self {
            MockConfig::SingletonAddress(_) => true,
            MockConfig::InstanceAddresses(m) => keys_unique(pairs_model(m@)),
        }
    }
}

/// The addresses that a mock configuration binds, in order.
pub open spec fn model_addresses(m: MockModel) -> Seq<Seq<char>> {
    match m {
        MockModel::Singleton(a) => seq![a],
        MockModel::Instances(pairs) => pairs.map_values(|p: (Seq<char>, Seq<char>)| p.1),
    }
}

/// The entries of a mock table, as names and models.
pub open spec fn table_model(v: Seq<(String, MockConfig)>) -> Seq<(Seq<char>, MockModel)> {
    v.map_values(|p: (String, MockConfig)| (p.0@, p.1.model()))
}

/// The table after one declaration of an address for contract `name`: without
/// an instance name it becomes the contract's single address; with one, it
/// joins the contract's instance map, which replaces a single address.
pub open spec fn apply_declaration(
    t: Seq<(Seq<char>, MockModel)>,
    name: Seq<char>,
    address: Seq<char>,
    instance: Option<Seq<char>>,
) -> Seq<(Seq<char>, MockModel)> {
    match instance {
        None => assoc_set(t, name, MockModel::Singleton(address)),
        Some(tag) => match assoc_get(t, name) {
            Some(MockModel::Instances(m)) => assoc_set(
                t,
                name,
                MockModel::Instances(assoc_set(m, tag, address)),
            ),
            _ => assoc_set(t, name, MockModel::Instances(seq![(tag, address)])),
        },
    }
}

/// Two declarations of instances of one contract under different instance
/// names merge into one instance map that holds both addresses; for a
/// contract the table did not hold, the map holds exactly those two.
pub proof fn lemma_instance_declarations_merge(
    t: Seq<(Seq<char>, MockModel)>,
    name: Seq<char>,
    tag1: Seq<char>,
    address1: Seq<char>,
    tag2: Seq<char>,
    address2: Seq<char>,
)
    requires
        keys_unique(t),
        assoc_get(t, name) matches Some(MockModel::Instances(m)) ==> keys_unique(m),
        tag1 != tag2,
    ensures
        ({
            let t2 = apply_declaration(
                apply_declaration(t, name, address1, Some(tag1)),
                name,
                address2,
                Some(tag2),
            );
            &&& assoc_get(t2, name) matches Some(MockModel::Instances(m)) && assoc_get(m, tag1)
                == Some(address1) && assoc_get(m, tag2) == Some(address2)
            &&& !has_key(t, name) ==> assoc_get(t2, name) == Some(
                MockModel::Instances(seq![(tag1, address1), (tag2, address2)]),
            )
        }),
{
    let m0 = match assoc_get(t, name) {
        Some(MockModel::Instances(m)) => m,
        _ => Seq::<(Seq<char>, Seq<char>)>::empty(),
    };
    let m1 = assoc_set(m0, tag1, address1);
    let t1 = apply_declaration(t, name, address1, Some(tag1));
    assert(keys_unique(m0));
    lemma_assoc_set_unique(m0, tag1, address1);
    lemma_assoc_get_set(m0, tag1, address1, tag1);
    assert(assoc_get(m1, tag1) == Some(address1));
    match assoc_get(t, name) {
        Some(MockModel::Instances(m)) => {
            assert(t1 == assoc_set(t, name, MockModel::Instances(m1)));
        },
        _ => {
            assert(assoc_set(m0, tag1, address1) =~= seq![(tag1, address1)]);
            assert(t1 == assoc_set(t, name, MockModel::Instances(m1)));
        },
    }
    lemma_assoc_get_set(t, name, MockModel::Instances(m1), name);
    lemma_assoc_set_unique(t, name, MockModel::Instances(m1));
    let m2 = assoc_set(m1, tag2, address2);
    lemma_assoc_get_set(m1, tag2, address2, tag1);
    lemma_assoc_get_set(m1, tag2, address2, tag2);
    lemma_assoc_get_set(t1, name, MockModel::Instances(m2), name);
    if !has_key(t, name) {
        assert(!has_key(m1, tag2)) by {
            if has_key(m1, tag2) {
                let j = choose|j: int| 0 <= j < m1.len() && m1[j].0 == tag2;
                assert(m1[j].0 == tag1);
            }
        }
        assert(m2 =~= seq![(tag1, address1), (tag2, address2)]);
    }
}

/// Binds instance `tag` to `address` in an instance map.
fn set_instance(m: &mut Vec<(String, String)>, tag: String, address: String)
    requires
        keys_unique(pairs_model(old(m)@)),
    ensures
        pairs_model(final(m)@) == assoc_set(pairs_model(old(m)@), tag@, address@),
        keys_unique(pairs_model(final(m)@)),
{
    proof {
        lemma_assoc_set_unique(pairs_model(m@), tag@, address@);
    }
    let ghost before = pairs_model(m@);
    let mut i: usize = 0;
    while i < m.len()
        invariant
            m@ == old(m)@,
            before == pairs_model(m@),
            keys_unique(before),
            i <= m@.len(),
            forall|j: int| 0 <= j < i ==> before[j].0 != tag@,
        decreases m@.len() - i,
    {
        if str_equals(m[i].0.as_str(), tag.as_str()) {
            proof {
                lemma_key_index_unique(before, tag@, i as int);
            }
            m[i] = (tag, address);
            assert(pairs_model(m@) =~= before.update(i as int, (tag@, address@)));
            return;
        }
        i = i + 1;
    }
    assert(!has_key(before, tag@));
    m.push((tag, address));
    assert(pairs_model(m@) =~= before.push((tag@, address@)));
}

/// A table of mock configurations by contract name.
pub struct MockTable {
    pub entries: Vec<(String, MockConfig)>,
}

impl MockTable {
    pub open spec fn model(&self) -> Seq<(Seq<char>, MockModel)> {
        table_model(self.entries@)
    }

    /// Each contract name appears once, and each configuration is well formed.
    pub open spec fn wf(&self) -> bool {
        &&& keys_unique(self.model())
        &&& forall|i: int| 0 <= i < self.entries@.len() ==> (#[trigger] self.entries@[i]).1.wf()
    }

    /// The empty table.
    pub fn new() -> (r: MockTable)
        ensures
            r.wf(),
            r.model() == Seq::<(Seq<char>, MockModel)>::empty(),
    {
        let r = MockTable { entries: Vec::new() };
        assert(r.model() =~= Seq::<(Seq<char>, MockModel)>::empty());
        r
    }

    /// The number of contracts in the table.
    pub fn len(&self) -> (r: usize)
        ensures
            r == self.model().len(),
    {
        self.entries.len()
    }

    /// The position of contract `name`.
    fn find(&self, name: &str) -> (r: Option<usize>)
        requires
            self.wf(),
        ensures
            r matches Some(i) ==> i < self.entries@.len() && has_key(self.model(), name@)
                && key_index(self.model(), name@) == i,
            r is None ==> !has_key(self.model(), name@),
    {
        let ghost t = self.model();
        let mut i: usize = 0;
        while i < self.entries.len()
            invariant
                t == self.model(),
                keys_unique(t),
                i <= self.entries@.len(),
                forall|j: int| 0 <= j < i ==> t[j].0 != name@,
            decreases self.entries@.len() - i,
        {
            if str_equals(self.entries[i].0.as_str(), name) {
                proof {
                    lemma_key_index_unique(t, name@, i as int);
                }
                return Some(i);
            }
            i = i + 1;
        }
        None
    }

    /// The configuration of contract `name`.
    pub fn get(&self, name: &str) -> (r: Option<&MockConfig>)
        requires
            self.wf(),
        ensures
            r matches Some(c) ==> assoc_get(self.model(), name@) == Some(c.model()) && c.wf(),
            r is None ==> assoc_get(self.model(), name@) is None,
    {
        match self.find(name) {
            Some(i) => {
                assert(self.entries@[i as int].1.wf());
                Some(&self.entries[i].1)
            },
            None => None,
        }
    }

    /// Sets the configuration of contract `name`, in place of any earlier one.
    pub fn insert(&mut self, name: String, config: MockConfig)
        requires
            old(self).wf(),
            config.wf(),
        ensures
            final(self).wf(),
            final(self).model() == assoc_set(old(self).model(), name@, config.model()),
    {
        let ghost t = self.model();
        let ghost m = config.model();
        proof {
            lemma_assoc_set_unique(t, name@, m);
        }
        match self.find(name.as_str()) {
            Some(i) => {
                self.entries[i] = (name, config);
                assert(self.model() =~= t.update(i as int, (name@, m)));
            },
            None => {
                self.entries.push((name, config));
                assert(self.model() =~= t.push((name@, m)));
            },
        }
        assert forall|j: int| 0 <= j < self.entries@.len() implies (#[trigger] self.entries@[j]).1.wf() by {
            if j < old(self).entries@.len() && self.entries@[j] == old(self).entries@[j] {
                assert(old(self).entries@[j].1.wf());
            }
        }
    }

    /// Declares `address` for contract `name`, as its single address, or for
    /// the instance `instance` of it.
    pub fn declare(&mut self, name: String, address: String, instance: Option<String>)
        requires
            old(self).wf(),
        ensures
            final(self).wf(),
            final(self).model() == apply_declaration(
                old(self).model(),
                name@,
                address@,
                match instance {
                    Some(tag) => Some(tag@),
                    None => None,
                },
            ),
    {
        let ghost t = self.model();
        match instance {
            None => {
                self.insert(name, MockConfig::SingletonAddress(address));
            },
            Some(tag) => {
                match self.find(name.as_str()) {
                    Some(i) => {
                        assert(self.entries@[i as int].1.wf());
                        let (key, config) = self.entries.remove(i);
                        let merged = match config {
                            MockConfig::InstanceAddresses(mut m) => {
                                set_instance(&mut m, tag, address);
                                MockConfig::InstanceAddresses(m)
                            },
                            MockConfig::SingletonAddress(_) => {
                                let m = vec![(tag, address)];
                                assert(pairs_model(m@) =~= seq![(tag@, address@)]);
                                MockConfig::InstanceAddresses(m)
                            },
                        };
                        let ghost nm = merged.model();
                        self.entries.insert(i, (key, merged));
                        assert(self.entries@ =~= old(self).entries@.update(i as int, (key, merged)));
                        assert(self.model() =~= t.update(i as int, (name@, nm)));
                        proof {
                            lemma_assoc_set_unique(t, name@, nm);
                        }
                        assert forall|j: int| 0 <= j < self.entries@.len() implies (#[trigger] self.entries@[j]).1.wf() by {
                            if j != i {
                                assert(self.entries@[j] == old(self).entries@[j]);
                            }
                        }
                    },
                    None => {
                        let m = vec![(tag, address)];
                        assert(pairs_model(m@) =~= seq![(tag@, address@)]);
                        self.insert(name, MockConfig::InstanceAddresses(m));
                    },
                }
            },
        }
    }
}

/// A compiled function, with its fully qualified debug name where it has one.
pub struct FunctionRef {
    pub debug_name: Option<String>,
}

/// What the compiler tells of one contract: its class hash, its constructor
/// and its entry points in order.
pub struct ContractInfo {
    pub class_hash: Felt,
    pub constructor: Option<FunctionRef>,
    pub entry_points: Vec<FunctionRef>,
}

/// The debug name of the first function that has one.
pub open spec fn first_debug_name(fs: Seq<FunctionRef>) -> Option<Seq<char>>
    decreases fs.len(),
{
    if fs.len() == 0 {
        None
    } else {
        match fs[0].debug_name {
            Some(n) => Some(n@),
            None => first_debug_name(fs.drop_first()),
        }
    }
}

/// The debug name a contract is named after: its constructor's where the
/// constructor has one, else that of the first entry point that has one.
pub open spec fn contract_debug_name(info: ContractInfo) -> Option<Seq<char>> {
    match info.constructor {
        Some(FunctionRef { debug_name: Some(n) }) => Some(n@),
        _ => first_debug_name(info.entry_points@),
    }
}

/// The name of a contract: the segment of its debug name that stands two
/// levels above the function's own name (`<module>::<contract>::<entry point
/// module>::<function>`). A contract none of whose functions has a debug
/// name, or whose debug name has fewer than three segments, has none.
pub open spec fn contract_name_of(info: ContractInfo) -> Option<Seq<char>> {
    match contract_debug_name(info) {
        Some(n) => third_last_segment(n),
        None => None,
    }
}

/// The debug name of the first function that has one.
fn find_debug_name(fs: &Vec<FunctionRef>) -> (r: Option<&String>)
    ensures
        r matches Some(n) ==> first_debug_name(fs@) == Some(n@),
        r is None ==> first_debug_name(fs@) is None,
{
    let mut i: usize = 0;
    assert(fs@.subrange(0, fs@.len() as int) == fs@);
    while i < fs.len()
        invariant
            i <= fs@.len(),
            first_debug_name(fs@.subrange(i as int, fs@.len() as int)) == first_debug_name(fs@),
        decreases fs@.len() - i,
    {
        let ghost rest = fs@.subrange(i as int, fs@.len() as int);
        assert(rest.drop_first() == fs@.subrange(i + 1, fs@.len() as int));
        assert(rest[0] == fs@[i as int]);
        match &fs[i].debug_name {
            Some(n) => {
                return Some(n);
            },
            None => {},
        }
        i = i + 1;
    }
    assert(fs@.subrange(i as int, fs@.len() as int).len() == 0);
    None
}

/// Gets the name of a contract from its info, where its functions carry
/// debug names.
pub fn contract_name_from_info(info: &ContractInfo) -> (r: Option<String>)
    ensures
        r matches Some(n) ==> contract_name_of(*info) == Some(n@),
        r is None ==> contract_name_of(*info) is None,
{
    let from_constructor = match &info.constructor {
        Some(c) => match &c.debug_name {
            Some(n) => Some(n),
            None => None,
        },
        None => None,
    };
    let name = match from_constructor {
        Some(n) => Some(n),
        None => find_debug_name(&info.entry_points),
    };
    match name {
        Some(n) => third_last_path_segment(n.as_str()),
        None => None,
    }
}

/// Whether an address is written in hexadecimal, after `0x`.
pub open spec fn is_hex_address(s: Seq<char>) -> bool {
    s.len() >= 2 && s[0] == '0' && s[1] == 'x'
}

/// The radix an address is written in.
pub open spec fn address_radix(s: Seq<char>) -> u32 {
    if is_hex_address(s) {
        16
    } else {
        10
    }
}

/// The digits of an address, without `0x`.
pub open spec fn address_digits(s: Seq<char>) -> Seq<char> {
    if is_hex_address(s) {
        s.subrange(2, s.len() as int)
    } else {
        s
    }
}

/// Whether an address string can be read.
pub open spec fn is_address(s: Seq<char>) -> bool {
    is_numeral(address_digits(s), address_radix(s) as nat)
}

/// The field element an address string stands for.
pub open spec fn address_value(s: Seq<char>) -> Felt {
    felt_of(reduce(numeral_value(address_digits(s), address_radix(s) as nat) as int))
}

/// An address that could not be read, with the radix it was read in.
pub struct AddressParseError {
    pub address: String,
    pub radix: u32,
}

/// Converts an address string, decimal or hexadecimal after `0x`, into a
/// field element.
pub fn address_from_string(addr: &String) -> (r: Result<Felt, AddressParseError>)
    ensures
        r is Ok <==> is_address(addr@),
        r matches Ok(f) ==> f == address_value(addr@),
        r matches Err(e) ==> e.address@ == addr@ && e.radix == address_radix(addr@),
{
    let s = addr.as_str();
    let n = s.unicode_len();
    let hex = n >= 2 && s.get_char(0) == '0' && s.get_char(1) == 'x';
    let radix: u32 = if hex { 16 } else { 10 };
    let digits = if hex { s.substring_char(2, n) } else { s };
    match parse_unsigned(digits, radix) {
        Some(magnitude) => Ok(felt_of_magnitude(&magnitude)),
        None => Err(AddressParseError { address: addr.clone(), radix }),
    }
}

/// A simulated chain state: the class hash deployed at each mocked address.
pub struct MockedState {
    pub contracts: Vec<(Felt, Felt)>,
}

impl MockedState {
    /// The class hash at each address, in the order they were first set.
    pub open spec fn model(&self) -> Seq<(Felt, Felt)> {
        self.contracts@
    }

    pub open spec fn wf(&self) -> bool {
        keys_unique(self.model())
    }

    /// The state with no contract.
    pub fn new() -> (r: MockedState)
        ensures
            r.wf(),
            r.model() == Seq::<(Felt, Felt)>::empty(),
    {
        MockedState { contracts: Vec::new() }
    }

    /// Deploys the class `class_hash` at `address`, in place of whatever was
    /// there.
    pub fn contract_address_set(&mut self, address: Felt, class_hash: Felt)
        requires
            old(self).wf(),
        ensures
            final(self).wf(),
            final(self).model() == assoc_set(old(self).model(), address, class_hash),
    {
        let ghost t = self.model();
        proof {
            lemma_assoc_set_unique(t, address, class_hash);
        }
        let mut i: usize = 0;
        while i < self.contracts.len()
            invariant
                t == self.model(),
                t == old(self).model(),
                keys_unique(t),
                i <= t.len(),
                forall|j: int| 0 <= j < i ==> t[j].0 != address,
            decreases t.len() - i,
        {
            if self.contracts[i].0 == address {
                assert(t[i as int].0 == address);
                proof {
                    lemma_key_index_unique(t, address, i as int);
                }
                self.contracts[i] = (address, class_hash);
                assert(self.model() =~= t.update(i as int, (address, class_hash)));
                return;
            }
            i = i + 1;
        }
        self.contracts.push((address, class_hash));
    }
}

/// The mock configuration of contract `name`: the one the test declares, else
/// the global one.
pub open spec fn merged_config(
    global: Seq<(Seq<char>, MockModel)>,
    per_test: Seq<(Seq<char>, MockModel)>,
    name: Seq<char>,
) -> Option<MockModel> {
    match assoc_get(per_test, name) {
        Some(m) => Some(m),
        None => assoc_get(global, name),
    }
}

/// The addresses that are mocked for one contract.
pub open spec fn contract_addresses(
    info: ContractInfo,
    global: Seq<(Seq<char>, MockModel)>,
    per_test: Seq<(Seq<char>, MockModel)>,
) -> Seq<Seq<char>> {
    match contract_name_of(info) {
        Some(n) => match merged_config(global, per_test, n) {
            Some(m) => model_addresses(m),
            None => seq![],
        },
        None => seq![],
    }
}

/// Each mocked address with the class hash to deploy there, contract after
/// contract.
pub open spec fn mock_bindings(
    contracts: Seq<ContractInfo>,
    global: Seq<(Seq<char>, MockModel)>,
    per_test: Seq<(Seq<char>, MockModel)>,
) -> Seq<(Seq<char>, Felt)>
    decreases contracts.len(),
{
    if contracts.len() == 0 {
        seq![]
    } else {
        let c = contracts.last();
        mock_bindings(contracts.drop_last(), global, per_test) + contract_addresses(
            c,
            global,
            per_test,
        ).map_values(|a: Seq<char>| (a, c.class_hash))
    }
}

/// The first binding whose address cannot be read.
pub open spec fn first_bad_address(b: Seq<(Seq<char>, Felt)>) -> Option<int>
    decreases b.len(),
{
    if b.len() == 0 {
        None
    } else {
        match first_bad_address(b.drop_last()) {
            Some(j) => Some(j),
            None => if is_address(b.last().0) {
                None
            } else {
                Some(b.len() - 1)
            },
        }
    }
}

/// A state after the bindings are applied in order.
pub open spec fn state_after(s: Seq<(Felt, Felt)>, b: Seq<(Seq<char>, Felt)>) -> Seq<(Felt, Felt)>
    decreases b.len(),
{
    if b.len() == 0 {
        s
    } else {
        assoc_set(state_after(s, b.drop_last()), address_value(b.last().0), b.last().1)
    }
}

proof fn lemma_first_bad_prefix(b: Seq<(Seq<char>, Felt)>, n: int)
    requires
        0 <= n <= b.len(),
        first_bad_address(b.subrange(0, n)) is Some,
    ensures
        first_bad_address(b) == first_bad_address(b.subrange(0, n)),
    decreases b.len() - n,
{
    if n < b.len() {
        assert(b.subrange(0, n + 1).drop_last() == b.subrange(0, n));
        lemma_first_bad_prefix(b, n + 1);
    } else {
        assert(b.subrange(0, n) == b);
    }
}

proof fn lemma_bindings_prefix(
    contracts: Seq<ContractInfo>,
    global: Seq<(Seq<char>, MockModel)>,
    per_test: Seq<(Seq<char>, MockModel)>,
    c: int,
)
    requires
        0 <= c <= contracts.len(),
    ensures
        mock_bindings(contracts.subrange(0, c), global, per_test).len() <= mock_bindings(contracts, global, per_test).len(),
        mock_bindings(contracts, global, per_test).subrange(0, mock_bindings(contracts.subrange(0, c), global, per_test).len() as int)
            == mock_bindings(contracts.subrange(0, c), global, per_test),
    decreases contracts.len() - c,
{
    let whole = mock_bindings(contracts, global, per_test);
    if c < contracts.len() {
        lemma_bindings_prefix(contracts, global, per_test, c + 1);
        assert(contracts.subrange(0, c + 1).drop_last() == contracts.subrange(0, c));
        let p = mock_bindings(contracts.subrange(0, c), global, per_test);
        let q = mock_bindings(contracts.subrange(0, c + 1), global, per_test);
        assert(q.subrange(0, p.len() as int) == p);
        assert(whole.subrange(0, p.len() as int) == q.subrange(0, p.len() as int));
    } else {
        assert(contracts.subrange(0, c) == contracts);
        assert(whole.subrange(0, whole.len() as int) == whole);
    }
}

/// Deploys `class_hash` at the address written `address`.
fn bind_address(state: &mut MockedState, address: &String, class_hash: Felt) -> (r: Result<(), AddressParseError>)
    requires
        old(state).wf(),
    ensures
        final(state).wf(),
        r is Ok <==> is_address(address@),
        r is Ok ==> final(state).model() == assoc_set(old(state).model(), address_value(address@), class_hash),
        r matches Err(e) ==> e.address@ == address@ && e.radix == address_radix(address@),
{
    let felt = address_from_string(address)?;
    state.contract_address_set(felt, class_hash);
    Ok(())
}

/// Deploys, in `state`, the class of each contract at each address mocked for
/// it. The configuration a test declares for a contract is used in place of
/// the global one.
pub fn starknet_add_mocked_addresses(
    state: &mut MockedState,
    global: &MockTable,
    per_test: &MockTable,
    contracts: &Vec<ContractInfo>,
) -> (r: Result<(), AddressParseError>)
    requires
        old(state).wf(),
        global.wf(),
        per_test.wf(),
    ensures
        final(state).wf(),
        ({
            let b = mock_bindings(contracts@, global.model(), per_test.model());
            &&& r is Ok <==> first_bad_address(b) is None
            &&& r is Ok ==> final(state).model() == state_after(old(state).model(), b)
            &&& r matches Err(e) ==> (first_bad_address(b) matches Some(j) && e.address@ == b[j].0
                && e.radix == address_radix(b[j].0))
        }),
{
    let ghost s0 = state.model();
    let ghost g = global.model();
    let ghost p = per_test.model();
    let ghost all = mock_bindings(contracts@, g, p);
    let mut c: usize = 0;
    while c < contracts.len()
        invariant
            s0 == old(state).model(),
            g == global.model(),
            p == per_test.model(),
            global.wf(),
            per_test.wf(),
            all == mock_bindings(contracts@, g, p),
            c <= contracts@.len(),
            state.wf(),
            first_bad_address(mock_bindings(contracts@.subrange(0, c as int), g, p)) is None,
            state.model() == state_after(s0, mock_bindings(contracts@.subrange(0, c as int), g, p)),
        decreases contracts@.len() - c,
    {
        let info = &contracts[c];
        let ghost done = mock_bindings(contracts@.subrange(0, c as int), g, p);
        let ghost addrs = contract_addresses(*info, g, p);
        let ghost f = |a: Seq<char>| (a, info.class_hash);
        assert(contracts@.subrange(0, c + 1).drop_last() == contracts@.subrange(0, c as int));
        assert(mock_bindings(contracts@.subrange(0, c + 1), g, p) == done + addrs.map_values(f));
        proof {
            lemma_bindings_prefix(contracts@, g, p, c + 1);
        }
        let config = match contract_name_from_info(info) {
            Some(name) => match per_test.get(name.as_str()) {
                Some(m) => Some(m),
                None => global.get(name.as_str()),
            },
            None => None,
        };
        let ghost mm = match config {
            Some(m) => model_addresses(m.model()),
            None => Seq::<Seq<char>>::empty(),
        };
        assert(mm == addrs);
        match config {
            Some(MockConfig::SingletonAddress(a)) => {
                let res = bind_address(state, a, info.class_hash);
                let ghost next = done.push((a@, info.class_hash));
                assert(addrs.map_values(f) =~= seq![(a@, info.class_hash)]);
                assert(next == done + addrs.map_values(f));
                assert(next.drop_last() == done);
                match res {
                    Ok(()) => {},
                    Err(e) => {
                        proof {
                            assert(all.subrange(0, next.len() as int) == next);
                            lemma_first_bad_prefix(all, next.len() as int);
                        }
                        return Err(e);
                    },
                }
            },
            Some(MockConfig::InstanceAddresses(m)) => {
                let mut k: usize = 0;
                while k < m.len()
                    invariant
                        s0 == old(state).model(),
                        g == global.model(),
                        p == per_test.model(),
                        all == mock_bindings(contracts@, g, p),
                        c < contracts@.len(),
                        info == contracts@[c as int],
                        f == (|a: Seq<char>| (a, info.class_hash)),
                        addrs == pairs_model(m@).map_values(|q: (Seq<char>, Seq<char>)| q.1),
                        (done + addrs.map_values(f)).len() <= all.len(),
                        all.subrange(0, (done + addrs.map_values(f)).len() as int) == done + addrs.map_values(f),
                        k <= m@.len(),
                        state.wf(),
                        first_bad_address(done + addrs.map_values(f).subrange(0, k as int)) is None,
                        state.model() == state_after(s0, done + addrs.map_values(f).subrange(0, k as int)),
                    decreases m@.len() - k,
                {
                    let ghost prev = done + addrs.map_values(f).subrange(0, k as int);
                    let ghost next = done + addrs.map_values(f).subrange(0, k + 1);
                    assert(next.drop_last() == prev);
                    assert(next.last() == (m@[k as int].1@, info.class_hash));
                    let res = bind_address(state, &m[k].1, info.class_hash);
                    match res {
                        Ok(()) => {},
                        Err(e) => {
                            proof {
                                let whole = done + addrs.map_values(f);
                                assert(whole.subrange(0, next.len() as int) =~= next);
                                assert(all.subrange(0, whole.len() as int).subrange(0, next.len() as int)
                                    =~= all.subrange(0, next.len() as int));
                                assert(all.subrange(0, next.len() as int) == next);
                                assert(first_bad_address(next) == Some(next.len() - 1));
                                lemma_first_bad_prefix(all, next.len() as int);
                                assert(all[next.len() - 1] == next[next.len() - 1]);
                            }
                            return Err(e);
                        },
                    }
                    k = k + 1;
                }
                assert(addrs.map_values(f).subrange(0, m@.len() as int) == addrs.map_values(f));
            },
            None => {
                assert(addrs.map_values(f) =~= Seq::<(Seq<char>, Felt)>::empty());
                assert(done + addrs.map_values(f) == done);
            },
        }
        c = c + 1;
    }
    assert(contracts@.subrange(0, contracts@.len() as int) == contracts@);
    Ok(())
}

/// Builds the simulated state of one test from the global mock table and the
/// test's own mocks.
pub fn starknet_state_from_mocked_addresses(
    global: &MockTable,
    per_test: &MockTable,
    contracts: &Vec<ContractInfo>,
) -> (r: Result<MockedState, AddressParseError>)
    requires
        global.wf(),
        per_test.wf(),
    ensures
        ({
            let b = mock_bindings(contracts@, global.model(), per_test.model());
            &&& r is Ok <==> first_bad_address(b) is None
            &&& r matches Ok(s) ==> s.wf() && s.model() == state_after(Seq::<(Felt, Felt)>::empty(), b)
            &&& r matches Err(e) ==> (first_bad_address(b) matches Some(j) && e.address@ == b[j].0
                && e.radix == address_radix(b[j].0))
        }),
{
    let mut state = MockedState::new();
    match starknet_add_mocked_addresses(&mut state, global, per_test, contracts) {
        Ok(()) => Ok(state),
        Err(e) => Err(e),
    }
}

} // verus!
