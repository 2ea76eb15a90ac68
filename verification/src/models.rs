//! Data model of the vault: account records, metadata, settings, and the
//! in-memory document itself, with mathematical views used by the contracts.
use vstd::prelude::*;

verus! {

/// Categories for organizing accounts.
#[derive(Clone, Copy, Debug, PartialEq, Eq, Structural)]
pub enum AccountType {
    Social,
    Banking,
    Work,
    Personal,
    Email,
    Shopping,
    Gaming,
    Other,
}

impl AccountType {
    /// Numeric tag under which the category is written into the vault file.
    pub open spec fn tag_spec(self) -> u8 {
        match self {
            AccountType::Social => 0,
            AccountType::Banking => 1,
            AccountType::Work => 2,
            AccountType::Personal => 3,
            AccountType::Email => 4,
            AccountType::Shopping => 5,
            AccountType::Gaming => 6,
            AccountType::Other => 7,
        }
    }

    /// The category a tag stands for, if it stands for one.
    pub open spec fn from_tag_spec(t: u8) -> Option<AccountType> {
        if t == 0 {
            Some(AccountType::Social)
        } else if t == 1 {
            Some(AccountType::Banking)
        } else if t == 2 {
            Some(AccountType::Work)
        } else if t == 3 {
            Some(AccountType::Personal)
        } else if t == 4 {
            Some(AccountType::Email)
        } else if t == 5 {
            Some(AccountType::Shopping)
        } else if t == 6 {
            Some(AccountType::Gaming)
        } else if t == 7 {
            Some(AccountType::Other)
        } else {
            None
        }
    }

    pub fn tag(&self) -> (t: u8)
        ensures
            t == self.tag_spec(),
    {
        match self {
            AccountType::Social => 0,
            AccountType::Banking => 1,
            AccountType::Work => 2,
            AccountType::Personal => 3,
            AccountType::Email => 4,
            AccountType::Shopping => 5,
            AccountType::Gaming => 6,
            AccountType::Other => 7,
        }
    }

    pub fn from_tag(t: u8) -> (r: Option<AccountType>)
        ensures
            r == Self::from_tag_spec(t),
    {
        if t == 0 {
            Some(AccountType::Social)
        } else if t == 1 {
            Some(AccountType::Banking)
        } else if t == 2 {
            Some(AccountType::Work)
        } else if t == 3 {
            Some(AccountType::Personal)
        } else if t == 4 {
            Some(AccountType::Email)
        } else if t == 5 {
            Some(AccountType::Shopping)
        } else if t == 6 {
            Some(AccountType::Gaming)
        } else if t == 7 {
            Some(AccountType::Other)
        } else {
            None
        }
    }

    /// Reading a written tag back gives the category it was written for.
    pub proof fn lemma_tag_round_trip(self)
        ensures
            Self::from_tag_spec(self.tag_spec()) == Some(self),
    {
    }

    /// The category's human-readable name.
    pub open spec fn display_name_spec(self) -> Seq<char> {
        match self {
            AccountType::Social => "Social"@,
            AccountType::Banking => "Banking"@,
            AccountType::Work => "Work"@,
            AccountType::Personal => "Personal"@,
            AccountType::Email => "Email"@,
            AccountType::Shopping => "Shopping"@,
            AccountType::Gaming => "Gaming"@,
            AccountType::Other => "Other"@,
        }
    }

    /// Get a human-readable name of the account type.
    pub fn display_name(&self) -> (r: &'static str)
        ensures
            r@ == self.display_name_spec(),
    {
        match self {
            AccountType::Social => "Social",
            AccountType::Banking => "Banking",
            AccountType::Work => "Work",
            AccountType::Personal => "Personal",
            AccountType::Email => "Email",
            AccountType::Shopping => "Shopping",
            AccountType::Gaming => "Gaming",
            AccountType::Other => "Other",
        }
    }

    /// The account types offered for selection, in their fixed order.
    pub fn all_types() -> (r: Vec<AccountType>)
        ensures
            r@ == seq![
                AccountType::Social,
                AccountType::Banking,
                AccountType::Work,
                AccountType::Personal,
                AccountType::Email,
                AccountType::Shopping,
                AccountType::Gaming,
            ],
    {
        let mut v: Vec<AccountType> = Vec::new();
        v.push(AccountType::Social);
        v.push(AccountType::Banking);
        v.push(AccountType::Work);
        v.push(AccountType::Personal);
        v.push(AccountType::Email);
        v.push(AccountType::Shopping);
        v.push(AccountType::Gaming);
        proof {
            assert(v@ =~= seq![
                AccountType::Social,
                AccountType::Banking,
                AccountType::Work,
                AccountType::Personal,
                AccountType::Email,
                AccountType::Shopping,
                AccountType::Gaming,
            ]);
        }
        v
    }
}

/// Options for password generation.
#[derive(Clone, Copy, Debug, PartialEq, Eq, Structural)]
pub struct PasswordOptions {
    /// Length of the generated password.
    pub length: usize,
    /// Include uppercase letters (A-Z).
    pub include_uppercase: bool,
    /// Include lowercase letters (a-z).
    pub include_lowercase: bool,
    /// Include numbers (0-9).
    pub include_numbers: bool,
    /// Include special characters.
    pub include_special: bool,
    /// Exclude visually similar characters (0, O, l, 1, |).
    pub exclude_similar: bool,
    /// Exclude ambiguous characters (brackets, slashes, and the like).
    pub exclude_ambiguous: bool,
}

impl PasswordOptions {
    /// The stock configuration: 16 characters, every class enabled,
    /// similar-looking characters left out.
    pub open spec fn default_spec() -> PasswordOptions {
        PasswordOptions {
            length: 16,
            include_uppercase: true,
            include_lowercase: true,
            include_numbers: true,
            include_special: true,
            exclude_similar: true,
            exclude_ambiguous: false,
        }
    }

    /// The stock configuration with another length.
    pub fn new(length: usize) -> (r: PasswordOptions)
        ensures
            r == (PasswordOptions { length, ..Self::default_spec() }),
    {
        PasswordOptions { length, ..Default::default() }
    }

    /// Letters and numbers only, similar and ambiguous characters left out.
    pub fn simple(length: usize) -> (r: PasswordOptions)
        ensures
            r == (PasswordOptions {
                length,
                include_uppercase: true,
                include_lowercase: true,
                include_numbers: true,
                include_special: false,
                exclude_similar: true,
                exclude_ambiguous: true,
            }),
    {
        PasswordOptions {
            length,
            include_uppercase: true,
            include_lowercase: true,
            include_numbers: true,
            include_special: false,
            exclude_similar: true,
            exclude_ambiguous: true,
        }
    }

    /// Every character class enabled.
    pub fn strong(length: usize) -> (r: PasswordOptions)
        ensures
            r == (PasswordOptions {
                length,
                include_uppercase: true,
                include_lowercase: true,
                include_numbers: true,
                include_special: true,
                exclude_similar: true,
                exclude_ambiguous: false,
            }),
    {
        PasswordOptions {
            length,
            include_uppercase: true,
            include_lowercase: true,
            include_numbers: true,
            include_special: true,
            exclude_similar: true,
            exclude_ambiguous: false,
        }
    }
}

impl Default for PasswordOptions {
    fn default() -> (r: PasswordOptions)
        ensures
            r == Self::default_spec(),
    {
        PasswordOptions {
            length: 16,
            include_uppercase: true,
            include_lowercase: true,
            include_numbers: true,
            include_special: true,
            exclude_similar: true,
            exclude_ambiguous: false,
        }
    }
}

/// Vault-specific configuration settings.
#[derive(Clone, Copy, Debug, PartialEq, Eq, Structural)]
pub struct VaultSettings {
    /// Auto-lock timeout in minutes (0 = disabled).
    pub auto_lock_timeout: u32,
    /// Require master password confirmation for sensitive operations.
    pub require_confirmation: bool,
    /// Clear the clipboard a while after a password was copied.
    pub auto_clear_clipboard: bool,
    /// Clipboard clear timeout in seconds.
    pub clipboard_timeout: u32,
    /// Show password strength indicators.
    pub show_strength_indicators: bool,
    /// Default password generation options.
    pub default_password_options: PasswordOptions,
}

impl VaultSettings {
    pub open spec fn default_spec() -> VaultSettings {
        VaultSettings {
            auto_lock_timeout: 15,
            require_confirmation: true,
            auto_clear_clipboard: true,
            clipboard_timeout: 30,
            show_strength_indicators: true,
            default_password_options: PasswordOptions::default_spec(),
        }
    }
}

impl Default for VaultSettings {
    fn default() -> (r: VaultSettings)
        ensures
            r == Self::default_spec(),
    {
        VaultSettings {
            auto_lock_timeout: 15,
            require_confirmation: true,
            auto_clear_clipboard: true,
            clipboard_timeout: 30,
            show_strength_indicators: true,
            default_password_options: PasswordOptions::default(),
        }
    }
}

/// A password account entry in the vault.
///
/// Identifiers are unique within a vault and never change once assigned.
/// Timestamps are seconds since the Unix epoch, supplied by the caller.
#[derive(Clone, Debug)]
pub struct Account {
    /// Unique identifier for the account.
    pub id: u128,
    /// Display name for the account (e.g., "GitHub").
    pub name: String,
    /// Category of the account.
    pub account_type: AccountType,
    /// Website URL associated with the account.
    pub url: Option<String>,
    /// Username or email for the account.
    pub username: Option<String>,
    /// The stored secret value.
    pub password: String,
    /// Additional notes about the account.
    pub notes: Option<String>,
    /// Tags for organizing accounts.
    pub tags: Vec<String>,
    /// When this account was created.
    pub created_at: u64,
    /// When this account was last modified.
    pub updated_at: u64,
    /// When this account was last accessed.
    pub last_accessed: Option<u64>,
}

/// Mathematical image of an [`Account`].
#[verifier::ext_equal]
pub ghost struct AccountV {
    pub id: u128,
    pub name: Seq<char>,
    pub account_type: AccountType,
    pub url: Option<Seq<char>>,
    pub username: Option<Seq<char>>,
    pub password: Seq<char>,
    pub notes: Option<Seq<char>>,
    pub tags: Seq<Seq<char>>,
    pub created_at: u64,
    pub updated_at: u64,
    pub last_accessed: Option<u64>,
}

impl View for Account {
    type V = AccountV;

    open spec fn view(&self) -> AccountV {
        AccountV {
            id: self.id,
            name: self.name@,
            account_type: self.account_type,
            url: self.url.deep_view(),
            username: self.username.deep_view(),
            password: self.password@,
            notes: self.notes.deep_view(),
            tags: self.tags.deep_view(),
            created_at: self.created_at,
            updated_at: self.updated_at,
            last_accessed: self.last_accessed,
        }
    }
}

impl DeepView for Account {
    type V = AccountV;

    open spec fn deep_view(&self) -> AccountV {
        self.view()
    }
}

/// Relies on uuid::Uuid::new_v4, a randomly generated identifier;
/// nothing is promised of the value.
#[verifier::external_body]
fn new_record_id() -> u128 {
    uuid::Uuid::new_v4().as_u128()
}

impl Account {
    /// Create a new account with a freshly drawn identifier, created/updated
    /// at `now`, and every optional field empty.
    pub fn new(name: String, account_type: AccountType, password: String, now: u64) -> (r:
        Account)
        ensures
            r@.name == name@,
            r@.account_type == account_type,
            r@.password == password@,
            r@.url is None,
            r@.username is None,
            r@.notes is None,
            r@.tags == Seq::<Seq<char>>::empty(),
            r@.created_at == now,
            r@.updated_at == now,
            r@.last_accessed is None,
    {
        let r = Account {
            id: new_record_id(),
            name,
            account_type,
            url: None,
            username: None,
            password,
            notes: None,
            tags: Vec::new(),
            created_at: now,
            updated_at: now,
            last_accessed: None,
        };
        proof {
            assert(r@.tags =~= Seq::<Seq<char>>::empty());
        }
        r
    }

    /// Record that the account was read at `now`.
    pub fn mark_accessed(&mut self, now: u64)
        ensures
            *final(self) == (Account { last_accessed: Some(now), ..*old(self) }),
    {
        self.last_accessed = Some(now);
    }

    /// Replace name, category and secret, stamping the change at `now`.
    pub fn update(&mut self, name: String, account_type: AccountType, password: String, now: u64)
        ensures
            final(self)@ == (AccountV {
                name: name@,
                account_type,
                password: password@,
                updated_at: now,
                ..old(self)@
            }),
    {
        self.name = name;
        self.account_type = account_type;
        self.password = password;
        self.updated_at = now;
        proof {
            assert(self@ =~= (AccountV {
                name: self.name@,
                account_type: self.account_type,
                password: self.password@,
                updated_at: now,
                ..old(self)@
            }));
        }
    }
}

/// Vault metadata and configuration.
#[derive(Clone, Debug)]
pub struct VaultMetadata {
    /// Version of the vault format.
    pub version: String,
    /// Email associated with this vault.
    pub email: String,
    /// When the vault was created.
    pub created_at: u64,
    /// When the vault was last modified.
    pub last_modified: u64,
    /// Number of accounts in the vault.
    pub account_count: usize,
    /// Vault-specific settings.
    pub settings: VaultSettings,
}

/// Mathematical image of a [`VaultMetadata`].
#[verifier::ext_equal]
pub ghost struct VaultMetadataV {
    pub version: Seq<char>,
    pub email: Seq<char>,
    pub created_at: u64,
    pub last_modified: u64,
    pub account_count: usize,
    pub settings: VaultSettings,
}

impl View for VaultMetadata {
    type V = VaultMetadataV;

    open spec fn view(&self) -> VaultMetadataV {
        VaultMetadataV {
            version: self.version@,
            email: self.email@,
            created_at: self.created_at,
            last_modified: self.last_modified,
            account_count: self.account_count,
            settings: self.settings,
        }
    }
}

/// The complete decrypted document: metadata plus all account records.
#[derive(Clone, Debug)]
pub struct Vault {
    /// Vault metadata.
    pub metadata: VaultMetadata,
    /// All accounts in the vault. Identifiers are pairwise distinct.
    pub accounts: Vec<Account>,
    /// Vault-wide tags for organizing accounts.
    pub tags: Vec<String>,
}

/// Mathematical image of a [`Vault`].
#[verifier::ext_equal]
pub ghost struct VaultV {
    pub metadata: VaultMetadataV,
    pub accounts: Seq<AccountV>,
    pub tags: Seq<Seq<char>>,
}

impl View for Vault {
    type V = VaultV;

    open spec fn view(&self) -> VaultV {
        VaultV {
            metadata: self.metadata@,
            accounts: self.accounts.deep_view(),
            tags: self.tags.deep_view(),
        }
    }
}

/// The image of lowercasing a piece of text, as `str::to_lowercase` computes
/// it; the result depends on the characters alone.
pub uninterp spec fn lowercase_of(s: Seq<char>) -> Seq<char>;

/// Relies on str::to_lowercase: the lowercased text is a function of the
/// input characters alone.
#[verifier::external_body]
fn to_lowercase(s: &str) -> (r: String)
    ensures
        r@ == lowercase_of(s@),
{
    s.to_lowercase()
}

/// True when `needle` occurs as a contiguous run of characters in `hay`.
pub open spec fn contains_seq(hay: Seq<char>, needle: Seq<char>) -> bool {
    exists|i: int|
        0 <= i && i + needle.len() <= hay.len() && #[trigger] hay.subrange(i, i + needle.len())
            == needle
}

/// Relies on str::contains with a `&str` pattern: it reports whether the
/// pattern occurs as a substring.
#[verifier::external_body]
fn str_contains(hay: &str, needle: &str) -> (r: bool)
    ensures
        r == contains_seq(hay@, needle@),
{
    hay.contains(needle)
}

/// Filtering a prefix of `s` one element further keeps the filtered prefix
/// and appends `s[i]` exactly when the predicate holds of it.
pub(crate) proof fn lemma_filter_step<A>(s: Seq<A>, i: int, pred: spec_fn(A) -> bool)
    requires
        0 <= i < s.len(),
    ensures
        s.subrange(0, i + 1).filter(pred) == if pred(s[i]) {
            s.subrange(0, i).filter(pred).push(s[i])
        } else {
            s.subrange(0, i).filter(pred)
        },
{
    reveal(Seq::filter);
    let t = s.subrange(0, i + 1);
    assert(t.drop_last() =~= s.subrange(0, i));
    assert(t.last() == s[i]);
}

/// Whether an account's name contains the query, both taken lowercase.
pub open spec fn name_matches(a: AccountV, query: Seq<char>) -> bool {
    contains_seq(lowercase_of(a.name), lowercase_of(query))
}

/// Whether an account is of the given category.
pub open spec fn type_matches(a: AccountV, t: AccountType) -> bool {
    a.account_type == t
}

/// Whether an account carries the given tag.
pub open spec fn tag_matches(a: AccountV, tag: Seq<char>) -> bool {
    a.tags.contains(tag)
}

/// Well-formedness of a document: record identifiers are pairwise distinct
/// and the recorded account count equals the number of records.
pub open spec fn wf_doc(v: VaultV) -> bool {
    &&& Vault::ids_unique(v.accounts)
    &&& v.metadata.account_count == v.accounts.len()
}

impl Vault {
    /// No two accounts share an identifier.
    pub open spec fn ids_unique(accs: Seq<AccountV>) -> bool {
        forall|i: int, j: int| 0 <= i < j < accs.len() ==> accs[i].id != accs[j].id
    }

    /// Well-formedness: identifiers are pairwise distinct and the recorded
    /// account count equals the number of accounts.
    pub open spec fn wf(self) -> bool {
        wf_doc(self@)
    }

    /// Decide well-formedness of this document.
    pub fn check_wf(&self) -> (r: bool)
        ensures
            r == self.wf(),
    {
        if self.metadata.account_count != self.accounts.len() {
            return false;
        }
        let mut i: usize = 0;
        while i < self.accounts.len()
            invariant
                i <= self@.accounts.len(),
                forall|p: int, q: int|
                    0 <= p < q < self@.accounts.len() && p < i ==> self@.accounts[p].id
                        != self@.accounts[q].id,
            decreases self@.accounts.len() - i,
        {
            let mut j: usize = i + 1;
            while j < self.accounts.len()
                invariant
                    i < self@.accounts.len(),
                    i < j <= self@.accounts.len(),
                    forall|q: int|
                        i < q < j ==> self@.accounts[i as int].id != self@.accounts[q].id,
                decreases self@.accounts.len() - j,
            {
                if self.accounts[i].id == self.accounts[j].id {
                    proof {
                        let accs = self@.accounts;
                        assert(accs[i as int].id == accs[j as int].id);
                        assert(!Self::ids_unique(accs));
                    }
                    return false;
                }
                j = j + 1;
            }
            i = i + 1;
        }
        true
    }

    /// Some account carries the identifier.
    pub open spec fn contains_id(accs: Seq<AccountV>, id: u128) -> bool {
        exists|i: int| 0 <= i < accs.len() && accs[i].id == id
    }

    /// The position of the account carrying the identifier.
    pub open spec fn index_of_id(accs: Seq<AccountV>, id: u128) -> int {
        choose|i: int| 0 <= i < accs.len() && accs[i].id == id
    }

    /// The records after storing `a`: the entry with `a`'s identifier is
    /// replaced if there is one, and `a` is appended otherwise.
    pub open spec fn upsert(accs: Seq<AccountV>, a: AccountV) -> Seq<AccountV> {
        if Self::contains_id(accs, a.id) {
            accs.update(Self::index_of_id(accs, a.id), a)
        } else {
            accs.push(a)
        }
    }

    /// A fresh, empty vault for `email`, created at `now`.
    pub fn new(email: String, now: u64) -> (r: Vault)
        ensures
            r.wf(),
            r@.metadata.version == "1.0.0"@,
            r@.metadata.email == email@,
            r@.metadata.created_at == now,
            r@.metadata.last_modified == now,
            r@.metadata.account_count == 0,
            r@.metadata.settings == VaultSettings::default_spec(),
            r@.accounts == Seq::<AccountV>::empty(),
            r@.tags == Seq::<Seq<char>>::empty(),
    {
        let r = Vault {
            metadata: VaultMetadata {
                version: "1.0.0".to_owned(),
                email,
                created_at: now,
                last_modified: now,
                account_count: 0,
                settings: VaultSettings::default(),
            },
            accounts: Vec::new(),
            tags: Vec::new(),
        };
        proof {
            assert(r@.accounts =~= Seq::<AccountV>::empty());
            assert(r@.tags =~= Seq::<Seq<char>>::empty());
        }
        r
    }

    /// The position of the record with identifier `id`, if there is one.
    fn find_index(&self, id: u128) -> (r: Option<usize>)
        ensures
            r matches Some(i) ==> i < self@.accounts.len() && self@.accounts[i as int].id == id,
            r is None ==> !Self::contains_id(self@.accounts, id),
    {
        let ghost accs = self@.accounts;
        let mut i: usize = 0;
        while i < self.accounts.len()
            invariant
                i <= accs.len(),
                accs == self@.accounts,
                forall|j: int| 0 <= j < i ==> accs[j].id != id,
            decreases accs.len() - i,
        {
            if self.accounts[i].id == id {
                return Some(i);
            }
            i = i + 1;
        }
        None
    }

    /// Store an account: replace the record with the same identifier if one
    /// exists, append otherwise, and stamp the change at `now`.
    pub fn add_account(&mut self, account: Account, now: u64)
        requires
            old(self).wf(),
        ensures
            final(self).wf(),
            final(self)@.accounts == Self::upsert(old(self)@.accounts, account@),
            final(self)@.metadata == (VaultMetadataV {
                last_modified: now,
                account_count: final(self)@.accounts.len() as usize,
                ..old(self)@.metadata
            }),
            final(self)@.tags == old(self)@.tags,
    {
        let ghost old_accs = self@.accounts;
        let ghost av = account@;
        match self.find_index(account.id) {
            Some(i) => {
                self.accounts[i] = account;
                proof {
                    assert(Self::contains_id(old_accs, av.id));
                    let k = Self::index_of_id(old_accs, av.id);
                    assert(0 <= k < old_accs.len() && old_accs[k].id == av.id);
                    assert(k == i as int);
                    assert(self@.accounts =~= old_accs.update(i as int, av));
                }
            },
            None => {
                self.accounts.push(account);
                proof {
                    assert(self@.accounts =~= old_accs.push(av));
                }
            },
        }
        proof {
            assert(Self::ids_unique(self@.accounts));
        }
        self.metadata.account_count = self.accounts.len();
        self.metadata.last_modified = now;
        proof {
            assert(self@.metadata =~= (VaultMetadataV {
                last_modified: now,
                account_count: self@.accounts.len() as usize,
                ..old(self)@.metadata
            }));
        }
    }

    /// Remove the record with identifier `id`, returning it; the vault is
    /// unchanged when no record carries the identifier.
    pub fn remove_account(&mut self, id: u128, now: u64) -> (r: Option<Account>)
        requires
            old(self).wf(),
        ensures
            final(self).wf(),
            Self::contains_id(old(self)@.accounts, id) ==> {
                &&& r matches Some(a) && a@ == old(self)@.accounts[Self::index_of_id(
                    old(self)@.accounts,
                    id,
                )]
                &&& final(self)@.accounts == old(self)@.accounts.remove(
                    Self::index_of_id(old(self)@.accounts, id),
                )
                &&& final(self)@.metadata == (VaultMetadataV {
                    last_modified: now,
                    account_count: final(self)@.accounts.len() as usize,
                    ..old(self)@.metadata
                })
                &&& final(self)@.tags == old(self)@.tags
            },
            !Self::contains_id(old(self)@.accounts, id) ==> r is None && *final(self) == *old(
                self,
            ),
    {
        let ghost old_accs = self@.accounts;
        match self.find_index(id) {
            Some(i) => {
                let a = self.accounts.remove(i);
                proof {
                    let k = Self::index_of_id(old_accs, id);
                    assert(0 <= k < old_accs.len() && old_accs[k].id == id);
                    assert(k == i as int);
                    assert(self@.accounts =~= old_accs.remove(i as int));
                    assert(Self::ids_unique(self@.accounts));
                }
                self.metadata.account_count = self.accounts.len();
                self.metadata.last_modified = now;
                proof {
                    assert(self@.metadata =~= (VaultMetadataV {
                        last_modified: now,
                        account_count: self@.accounts.len() as usize,
                        ..old(self)@.metadata
                    }));
                }
                Some(a)
            },
            None => None,
        }
    }

    /// The record with identifier `id`, if there is one.
    pub fn get_account(&self, id: u128) -> (r: Option<&Account>)
        requires
            self.wf(),
        ensures
            r matches Some(a) ==> Self::contains_id(self@.accounts, id) && a@
                == self@.accounts[Self::index_of_id(self@.accounts, id)] && a@.id == id,
            r is None ==> !Self::contains_id(self@.accounts, id),
    {
        match self.find_index(id) {
            Some(i) => {
                let a = &self.accounts[i];
                proof {
                    assert(Self::contains_id(self@.accounts, id));
                    let k = Self::index_of_id(self@.accounts, id);
                    assert(0 <= k < self@.accounts.len() && self@.accounts[k].id == id);
                    assert(k == i as int);
                }
                Some(a)
            },
            None => None,
        }
    }

    /// All records, in storage order.
    pub fn get_all_accounts(&self) -> (r: Vec<&Account>)
        ensures
            r@.len() == self@.accounts.len(),
            forall|i: int| 0 <= i < r@.len() ==> r@[i]@ == self@.accounts[i],
    {
        let mut out: Vec<&Account> = Vec::new();
        let mut i: usize = 0;
        while i < self.accounts.len()
            invariant
                i <= self@.accounts.len(),
                out@.len() == i,
                forall|j: int| 0 <= j < i ==> out@[j]@ == self@.accounts[j],
            decreases self@.accounts.len() - i,
        {
            out.push(&self.accounts[i]);
            i = i + 1;
        }
        out
    }

    /// The records whose lowercased name contains the lowercased query, in
    /// storage order.
    pub fn search_accounts(&self, query: &str) -> (r: Vec<&Account>)
        ensures
            r.deep_view() == self@.accounts.filter(|a: AccountV| name_matches(a, query@)),
    {
        let query_lower = to_lowercase(query);
        let ghost pred = |a: AccountV| name_matches(a, query@);
        let mut out: Vec<&Account> = Vec::new();
        let mut i: usize = 0;
        while i < self.accounts.len()
            invariant
                i <= self@.accounts.len(),
                query_lower@ == lowercase_of(query@),
                out.deep_view() == self@.accounts.subrange(0, i as int).filter(pred),
                pred == (|a: AccountV| name_matches(a, query@)),
            decreases self@.accounts.len() - i,
        {
            let ghost prefix = self@.accounts.subrange(0, i as int);
            let ghost out0 = out.deep_view();
            let a = &self.accounts[i];
            let keep = str_contains(to_lowercase(a.name.as_str()).as_str(), query_lower.as_str());
            if keep {
                out.push(a);
            }
            proof {
                lemma_filter_step(self@.accounts, i as int, pred);
                assert(keep == pred(a@));
                if keep {
                    assert(out.deep_view() =~= out0.push(a@));
                } else {
                    assert(out.deep_view() =~= out0);
                }
            }
            i = i + 1;
        }
        proof {
            assert(self@.accounts.subrange(0, self@.accounts.len() as int) =~= self@.accounts);
        }
        out
    }

    /// The records of the given category, in storage order.
    pub fn get_accounts_by_type(&self, account_type: &AccountType) -> (r: Vec<&Account>)
        ensures
            r.deep_view() == self@.accounts.filter(|a: AccountV| type_matches(a, *account_type)),
    {
        let ghost t = *account_type;
        let ghost pred = |a: AccountV| type_matches(a, t);
        let mut out: Vec<&Account> = Vec::new();
        let mut i: usize = 0;
        while i < self.accounts.len()
            invariant
                i <= self@.accounts.len(),
                t == *account_type,
                out.deep_view() == self@.accounts.subrange(0, i as int).filter(pred),
                pred == (|a: AccountV| type_matches(a, t)),
            decreases self@.accounts.len() - i,
        {
            let ghost out0 = out.deep_view();
            let a = &self.accounts[i];
            let keep = a.account_type == *account_type;
            if keep {
                out.push(a);
            }
            proof {
                lemma_filter_step(self@.accounts, i as int, pred);
                assert(keep == pred(a@));
                if keep {
                    assert(out.deep_view() =~= out0.push(a@));
                } else {
                    assert(out.deep_view() =~= out0);
                }
            }
            i = i + 1;
        }
        proof {
            assert(self@.accounts.subrange(0, self@.accounts.len() as int) =~= self@.accounts);
        }
        out
    }

    /// The records carrying the given tag, in storage order.
    pub fn get_accounts_by_tag(&self, tag: &str) -> (r: Vec<&Account>)
        ensures
            r.deep_view() == self@.accounts.filter(|a: AccountV| tag_matches(a, tag@)),
    {
        let tag_string = tag.to_owned();
        let ghost pred = |a: AccountV| tag_matches(a, tag@);
        let mut out: Vec<&Account> = Vec::new();
        let mut i: usize = 0;
        while i < self.accounts.len()
            invariant
                i <= self@.accounts.len(),
                tag_string@ == tag@,
                out.deep_view() == self@.accounts.subrange(0, i as int).filter(pred),
                pred == (|a: AccountV| tag_matches(a, tag@)),
            decreases self@.accounts.len() - i,
        {
            let ghost out0 = out.deep_view();
            let a = &self.accounts[i];
            let keep = Self::has_tag(a, &tag_string);
            if keep {
                out.push(a);
            }
            proof {
                lemma_filter_step(self@.accounts, i as int, pred);
                assert(keep == pred(a@));
                if keep {
                    assert(out.deep_view() =~= out0.push(a@));
                } else {
                    assert(out.deep_view() =~= out0);
                }
            }
            i = i + 1;
        }
        proof {
            assert(self@.accounts.subrange(0, self@.accounts.len() as int) =~= self@.accounts);
        }
        out
    }


    /// Replace the named fields of the record with identifier `id`, keeping
    /// its identifier, creation stamp and last-access stamp; stamp the change
    /// at `now`. Returns whether such a record exists; the vault is unchanged
    /// when none does.
    pub fn update_account(
        &mut self,
        id: u128,
        name: String,
        account_type: AccountType,
        password: String,
        url: Option<String>,
        username: Option<String>,
        notes: Option<String>,
        tags: Vec<String>,
        now: u64,
    ) -> (r: bool)
        requires
            old(self).wf(),
        ensures
            final(self).wf(),
            r == Self::contains_id(old(self)@.accounts, id),
            !r ==> *final(self) == *old(self),
            r ==> {
                let k = Self::index_of_id(old(self)@.accounts, id);
                &&& final(self)@.accounts == old(self)@.accounts.update(
                    k,
                    AccountV {
                        name: name@,
                        account_type,
                        password: password@,
                        url: url.deep_view(),
                        username: username.deep_view(),
                        notes: notes.deep_view(),
                        tags: tags.deep_view(),
                        updated_at: now,
                        ..old(self)@.accounts[k]
                    },
                )
                &&& final(self)@.metadata == (VaultMetadataV {
                    last_modified: now,
                    ..old(self)@.metadata
                })
                &&& final(self)@.tags == old(self)@.tags
            },
    {
        let ghost old_accs = self@.accounts;
        match self.find_index(id) {
            None => false,
            Some(i) => {
                proof {
                    let k = Self::index_of_id(old_accs, id);
                    assert(0 <= k < old_accs.len() && old_accs[k].id == id);
                    assert(k == i as int);
                }
                let a = &self.accounts[i];
                let updated = Account {
                    id: a.id,
                    name,
                    account_type,
                    url,
                    username,
                    password,
                    notes,
                    tags,
                    created_at: a.created_at,
                    updated_at: now,
                    last_accessed: a.last_accessed,
                };
                let ghost uv = updated@;
                self.accounts[i] = updated;
                self.metadata.last_modified = now;
                proof {
                    assert(self@.accounts =~= old_accs.update(i as int, uv));
                    assert(uv =~= (AccountV {
                        name: self@.accounts[i as int].name,
                        account_type: self@.accounts[i as int].account_type,
                        password: self@.accounts[i as int].password,
                        url: self@.accounts[i as int].url,
                        username: self@.accounts[i as int].username,
                        notes: self@.accounts[i as int].notes,
                        tags: self@.accounts[i as int].tags,
                        updated_at: now,
                        ..old_accs[i as int]
                    }));
                    assert(Self::ids_unique(self@.accounts));
                    assert(self@.metadata =~= (VaultMetadataV {
                        last_modified: now,
                        ..old(self)@.metadata
                    }));
                }
                true
            },
        }
    }

    /// Whether the account carries the tag.
    fn has_tag(a: &Account, tag: &String) -> (r: bool)
        ensures
            r == tag_matches(a@, tag@),
    {
        let mut j: usize = 0;
        while j < a.tags.len()
            invariant
                j <= a@.tags.len(),
                forall|k: int| 0 <= k < j ==> a@.tags[k] != tag@,
            decreases a@.tags.len() - j,
        {
            let hit = a.tags[j] == *tag;
            proof {
                assert(a@.tags[j as int] == a.tags@[j as int]@);
            }
            if hit {
                proof {
                    assert(a@.tags[j as int] == tag@);
                }
                return true;
            }
            j = j + 1;
        }
        proof {
            assert(!a@.tags.contains(tag@));
        }
        false
    }
}

} // verus!
