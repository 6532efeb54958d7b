//! The object store client: which endpoint it talks to, and its creation
//! through the `rust-s3` crate.
use vstd::prelude::*;
use crate::config::AppConfig;
use crate::error::AppError;

verus! {

#[verifier::external_type_specification]
#[verifier::external_body]
pub struct ExBucket(s3::Bucket);

#[verifier::external_type_specification]
#[verifier::external_body]
pub struct ExRegion(s3::Region);

#[verifier::external_type_specification]
#[verifier::external_body]
pub struct ExCredentials(s3::creds::Credentials);

/// The endpoint of the object store: the configured one, or the
/// DigitalOcean Spaces endpoint of the configured region.
pub open spec fn endpoint_of(config: AppConfig) -> Seq<char> {
    match config.s3_endpoint {
        Some(e) => e@,
        None => "https://"@ + config.s3_region@ + ".digitaloceanspaces.com"@,
    }
}

/// The endpoint of the object store.
pub fn s3_endpoint(config: &AppConfig) -> (e: String)
    ensures
        e@ == endpoint_of(*config),
{
    match &config.s3_endpoint {
        Some(e) => e.clone(),
        None => {
            let mut e = "https://".to_owned();
            e.append(config.s3_region.as_str());
            e.append(".digitaloceanspaces.com");
            e
        },
    }
}

/// A region of the object store: the `rust-s3` value and the name and
/// endpoint it was built from.
pub struct StoreRegion {
    region: s3::Region,
    built_from: Ghost<(Seq<char>, Seq<char>)>,
}

impl StoreRegion {
    /// The region name it was built from.
    pub closed spec fn name(self) -> Seq<char> {
        self.built_from@.0
    }

    /// The endpoint it was built from.
    pub closed spec fn endpoint(self) -> Seq<char> {
        self.built_from@.1
    }
}

/// Credentials of the object store: the `rust-s3` value and the keys it
/// holds.
pub struct StoreCredentials {
    credentials: s3::creds::Credentials,
    keys: Ghost<(Seq<char>, Seq<char>)>,
}

impl StoreCredentials {
    /// The access key.
    pub closed spec fn access_key(self) -> Seq<char> {
        self.keys@.0
    }

    /// The secret key.
    pub closed spec fn secret_key(self) -> Seq<char> {
        self.keys@.1
    }
}

/// The object store client: a `rust-s3` bucket and what it was built from
/// (bucket name, region name, endpoint, access key, secret key, and whether
/// objects are addressed by path).
pub struct ObjectStore {
    bucket: Box<s3::Bucket>,
    built_from: Ghost<(Seq<char>, Seq<char>, Seq<char>, Seq<char>, Seq<char>, bool)>,
}

impl ObjectStore {
    /// The bucket name.
    pub closed spec fn name(self) -> Seq<char> {
        self.built_from@.0
    }

    /// The region name.
    pub closed spec fn region(self) -> Seq<char> {
        self.built_from@.1
    }

    /// The endpoint.
    pub closed spec fn endpoint(self) -> Seq<char> {
        self.built_from@.2
    }

    /// The access key.
    pub closed spec fn access_key(self) -> Seq<char> {
        self.built_from@.3
    }

    /// The secret key.
    pub closed spec fn secret_key(self) -> Seq<char> {
        self.built_from@.4
    }

    /// Objects are addressed by path rather than by host.
    pub closed spec fn path_style(self) -> bool {
        self.built_from@.5
    }

    /// The `rust-s3` bucket, for transfers.
    pub fn bucket(&self) -> &s3::Bucket {
        &self.bucket
    }
}

/// `s3::Region::Custom { region, endpoint }`: a region that holds the given
/// name and endpoint.
#[verifier::external_body]
fn custom_region(region: String, endpoint: String) -> (r: StoreRegion)
    ensures
        r.name() == region@,
        r.endpoint() == endpoint@,
{
    let built_from = Ghost((region@, endpoint@));
    StoreRegion { region: s3::Region::Custom { region, endpoint }, built_from }
}

/// `s3::creds::Credentials::new` with an access key and a secret key and no
/// tokens or profile.  The source returns `Ok` holding exactly these keys
/// whenever an access key is given; the error is taken as its `Display`
/// text.
#[verifier::external_body]
fn credentials_new(access_key: &str, secret_key: &str) -> (r: Result<StoreCredentials, String>)
    ensures
        r is Ok,
        r matches Ok(c) ==> c.access_key() == access_key@ && c.secret_key() == secret_key@,
{
    let keys = Ghost((access_key@, secret_key@));
    match s3::creds::Credentials::new(Some(access_key), Some(secret_key), None, None, None) {
        Ok(credentials) => Ok(StoreCredentials { credentials, keys }),
        Err(e) => Err(e.to_string()),
    }
}

/// `s3::Bucket::new`: a bucket with the given name, region and credentials,
/// addressed by host.  It may fail while building its HTTP client; the error
/// is taken as its `Display` text.
#[verifier::external_body]
fn bucket_new(name: &str, region: StoreRegion, credentials: StoreCredentials) -> (r: Result<
    ObjectStore,
    String,
>)
    ensures
        r matches Ok(s) ==> {
            &&& s.name() == name@
            &&& s.region() == region.name()
            &&& s.endpoint() == region.endpoint()
            &&& s.access_key() == credentials.access_key()
            &&& s.secret_key() == credentials.secret_key()
            &&& !s.path_style()
        },
{
    let built_from = Ghost(
        (
            name@,
            region.name(),
            region.endpoint(),
            credentials.access_key(),
            credentials.secret_key(),
            false,
        ),
    );
    match s3::Bucket::new(name, region.region, credentials.credentials) {
        Ok(bucket) => Ok(ObjectStore { bucket, built_from }),
        Err(e) => Err(e.to_string()),
    }
}

/// `s3::Bucket::with_path_style`: the same bucket (name, region,
/// credentials), addressed by path.
#[verifier::external_body]
fn with_path_style(store: &ObjectStore) -> (r: ObjectStore)
    ensures
        r.name() == store.name(),
        r.region() == store.region(),
        r.endpoint() == store.endpoint(),
        r.access_key() == store.access_key(),
        r.secret_key() == store.secret_key(),
        r.path_style(),
{
    let built_from = Ghost(
        (
            store.name(),
            store.region(),
            store.endpoint(),
            store.access_key(),
            store.secret_key(),
            true,
        ),
    );
    ObjectStore { bucket: store.bucket.with_path_style(), built_from }
}

/// What the object store client is built from.
pub struct BucketSettings {
    pub name: String,
    pub region: String,
    pub endpoint: String,
    pub access_key: String,
    pub secret_key: String,
}

/// The settings of the object store client: the configured bucket, region
/// and keys, and the endpoint of `endpoint_of`.
pub fn bucket_settings(config: &AppConfig) -> (s: BucketSettings)
    ensures
        s.name@ == config.s3_bucket@,
        s.region@ == config.s3_region@,
        s.endpoint@ == endpoint_of(*config),
        s.access_key@ == config.s3_access_key@,
        s.secret_key@ == config.s3_secret_key@,
{
    BucketSettings {
        name: config.s3_bucket.clone(),
        region: config.s3_region.clone(),
        endpoint: s3_endpoint(config),
        access_key: config.s3_access_key.clone(),
        secret_key: config.s3_secret_key.clone(),
    }
}

/// The answer to building the client: the same bucket addressed by path
/// when it was built; otherwise an `S3` error carrying the text of the
/// failure.
pub fn bucket_outcome(created: Result<ObjectStore, String>) -> (r: Result<ObjectStore, AppError>)
    ensures
        r is Ok <==> created is Ok,
        created matches Ok(c) ==> (r matches Ok(s) && {
            &&& s.name() == c.name()
            &&& s.region() == c.region()
            &&& s.endpoint() == c.endpoint()
            &&& s.access_key() == c.access_key()
            &&& s.secret_key() == c.secret_key()
            &&& s.path_style()
        }),
        created matches Err(e) ==> (r matches Err(AppError::S3(m)) && m@ == e@),
{
    match created {
        Ok(store) => Ok(with_path_style(&store)),
        Err(e) => Err(AppError::S3(e)),
    }
}

/// The object store client for the configured bucket, region, endpoint and
/// keys, addressed by path.  A failure of the client is an `S3` error.
pub fn create_bucket(config: &AppConfig) -> (r: Result<ObjectStore, AppError>)
    ensures
        r matches Ok(s) ==> {
            &&& s.name() == config.s3_bucket@
            &&& s.region() == config.s3_region@
            &&& s.endpoint() == endpoint_of(*config)
            &&& s.access_key() == config.s3_access_key@
            &&& s.secret_key() == config.s3_secret_key@
            &&& s.path_style()
        },
        r is Err ==> r matches Err(AppError::S3(_)),
{
    let settings = bucket_settings(config);
    let region = custom_region(settings.region, settings.endpoint);
    let credentials = match credentials_new(
        settings.access_key.as_str(),
        settings.secret_key.as_str(),
    ) {
        Ok(c) => c,
        Err(e) => {
            return Err(AppError::S3(e));
        },
    };
    bucket_outcome(bucket_new(settings.name.as_str(), region, credentials))
}

} // verus!
