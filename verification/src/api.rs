//! The requests of the Tophub API: which endpoint each operation asks, with
//! which query parameters and credentials.
use vstd::prelude::*;
use crate::text::{decimal, u64_to_decimal};

verus! {

/// The address of the Tophub API.
pub open spec fn default_base_url() -> Seq<char> {
    "https://api.tophubdata.com"@
}

/// A client's configuration: the address of the API and the key that every
/// request is authorized with.
#[derive(Clone)]
pub struct Tophub {
    pub base_url: String,
    pub api_key: String,
}

/// A `GET` request to send: its URL (without query), the value of its
/// `Authorization` header and its query parameters, in order. An empty list
/// of parameters means a request without query string.
pub struct ApiRequest {
    pub url: String,
    pub authorization: String,
    pub query: Vec<(String, String)>,
}

/// The mathematical form of a list of query parameters.
pub open spec fn params_view(params: Seq<(String, String)>) -> Seq<(Seq<char>, Seq<char>)> {
    params.map_values(|p: (String, String)| (p.0@, p.1@))
}

/// The mathematical form of a request.
pub struct ApiRequestView {
    pub url: Seq<char>,
    pub authorization: Seq<char>,
    pub query: Seq<(Seq<char>, Seq<char>)>,
}

impl View for ApiRequest {
    type V = ApiRequestView;

    open spec fn view(&self) -> ApiRequestView {
        ApiRequestView {
            url: self.url@,
            authorization: self.authorization@,
            query: params_view(self.query@),
        }
    }
}

/// One query parameter.
pub open spec fn param(name: Seq<char>, value: Seq<char>) -> Seq<(Seq<char>, Seq<char>)> {
    seq![(name, value)]
}

/// One query parameter if the value is present, none otherwise.
pub open spec fn opt_param(name: Seq<char>, value: Option<Seq<char>>) -> Seq<(Seq<char>, Seq<char>)> {
    match value {
        Some(v) => seq![(name, v)],
        None => Seq::<(Seq<char>, Seq<char>)>::empty(),
    }
}

/// The mathematical form of an optional string argument.
pub open spec fn opt_str(value: Option<&str>) -> Option<Seq<char>> {
    match value {
        Some(v) => Some(v@),
        None => None,
    }
}

/// The text of an optional number, in decimal.
pub open spec fn opt_decimal(value: Option<u8>) -> Option<Seq<char>> {
    match value {
        Some(v) => Some(decimal(v as nat)),
        None => None,
    }
}

impl Tophub {
    /// The request that `call` builds for an endpoint and its parameters.
    pub open spec fn request_to(
        self,
        endpoint: Seq<char>,
        query: Seq<(Seq<char>, Seq<char>)>,
    ) -> ApiRequestView {
        ApiRequestView { url: self.base_url@ + endpoint, authorization: self.api_key@, query }
    }

    /// A client of the Tophub API that authorizes its requests with `api_key`.
    pub fn new(api_key: String) -> (r: Tophub)
        ensures
            r.base_url@ == default_base_url(),
            r.api_key@ == api_key@,
    {
        Tophub { base_url: String::from_str("https://api.tophubdata.com"), api_key }
    }

    /// The request for `endpoint` with the given query parameters: the URL is
    /// the endpoint appended to the base address, and the API key is sent as
    /// the `Authorization` header.
    pub fn call(&self, endpoint: &str, params: Vec<(String, String)>) -> (r: ApiRequest)
        ensures
            r@ == self.request_to(endpoint@, params_view(params@)),
    {
        let mut url = self.base_url.clone();
        url.append(endpoint);
        ApiRequest { url, authorization: self.api_key.clone(), query: params }
    }

    /// The list of all nodes, page `p` (`/nodes?p=..`).
    pub fn nodes(&self, p: u32) -> (r: ApiRequest)
        ensures
            r@ == self.request_to("/nodes"@, param("p"@, decimal(p as nat))),
    {
        let mut params: Vec<(String, String)> = Vec::new();
        params.push((String::from_str("p"), u64_to_decimal(p as u64)));
        let r = self.call("/nodes", params);
        assert(r@.query =~= param("p"@, decimal(p as nat)));
        r
    }

    /// The path of a node's resource: `/nodes/` and the hashid.
    fn node_path(hashid: &str) -> (r: String)
        ensures
            r@ == "/nodes/"@ + hashid@,
    {
        let mut path = String::from_str("/nodes/");
        path.append(hashid);
        path
    }

    /// The latest content of one node (`/nodes/{hashid}`).
    pub fn node(&self, hashid: &str) -> (r: ApiRequest)
        ensures
            r@ == self.request_to("/nodes/"@ + hashid@, Seq::<(Seq<char>, Seq<char>)>::empty()),
    {
        let path = Self::node_path(hashid);
        let r = self.call(path.as_str(), Vec::new());
        assert(r@.query =~= Seq::<(Seq<char>, Seq<char>)>::empty());
        r
    }

    /// The history of one node on a date (`/nodes/{hashid}/historys?date=..`).
    pub fn node_historys(&self, hashid: &str, date: &str) -> (r: ApiRequest)
        ensures
            r@ == self.request_to("/nodes/"@ + hashid@ + "/historys"@, param("date"@, date@)),
    {
        let mut path = Self::node_path(hashid);
        path.append("/historys");
        let mut params: Vec<(String, String)> = Vec::new();
        params.push((String::from_str("date"), String::from_str(date)));
        let r = self.call(path.as_str(), params);
        assert(r@.query =~= param("date"@, date@));
        r
    }

    /// A search over all lists (`/search?q=..&p=..&hashid=..`).
    pub fn search(&self, q: &str, p: u32, hashid: &str) -> (r: ApiRequest)
        ensures
            r@ == self.request_to(
                "/search"@,
                param("q"@, q@) + param("p"@, decimal(p as nat)) + param("hashid"@, hashid@),
            ),
    {
        let mut params: Vec<(String, String)> = Vec::new();
        params.push((String::from_str("q"), String::from_str(q)));
        params.push((String::from_str("p"), u64_to_decimal(p as u64)));
        params.push((String::from_str("hashid"), String::from_str(hashid)));
        let r = self.call("/search", params);
        assert(r@.query =~= param("q"@, q@) + param("p"@, decimal(p as nat)) + param(
            "hashid"@,
            hashid@,
        ));
        r
    }

    /// The list of lists of a day (`/hot?date=..`).
    pub fn hot(&self, date: &str) -> (r: ApiRequest)
        ensures
            r@ == self.request_to("/hot"@, param("date"@, date@)),
    {
        let mut params: Vec<(String, String)> = Vec::new();
        params.push((String::from_str("date"), String::from_str(date)));
        let r = self.call("/hot", params);
        assert(r@.query =~= param("date"@, date@));
        r
    }

    /// The snapshots of one node (`/nodes/{hashid}/snapshots`), with the date
    /// and the level of detail as parameters when given.
    pub fn snapshots(&self, hashid: &str, date: Option<&str>, details: Option<u8>) -> (r:
        ApiRequest)
        ensures
            r@ == self.request_to(
                "/nodes/"@ + hashid@ + "/snapshots"@,
                opt_param("date"@, opt_str(date)) + opt_param("details"@, opt_decimal(details)),
            ),
    {
        let mut path = Self::node_path(hashid);
        path.append("/snapshots");
        let mut params: Vec<(String, String)> = Vec::new();
        if let Some(d) = date {
            params.push((String::from_str("date"), String::from_str(d)));
        }
        let ghost first = params_view(params@);
        if let Some(d) = details {
            params.push((String::from_str("details"), u64_to_decimal(d as u64)));
        }
        assert(first =~= opt_param("date"@, opt_str(date)));
        let r = self.call(path.as_str(), params);
        assert(r@.query =~= opt_param("date"@, opt_str(date)) + opt_param(
            "details"@,
            opt_decimal(details),
        ));
        r
    }

    /// One snapshot of one node (`/nodes/{hashid}/snapshots/{ssid}`).
    pub fn snapshot(&self, hashid: &str, ssid: u64) -> (r: ApiRequest)
        ensures
            r@ == self.request_to(
                "/nodes/"@ + hashid@ + "/snapshots/"@ + decimal(ssid as nat),
                Seq::<(Seq<char>, Seq<char>)>::empty(),
            ),
    {
        let mut path = Self::node_path(hashid);
        path.append("/snapshots/");
        let id = u64_to_decimal(ssid);
        path.append(id.as_str());
        let r = self.call(path.as_str(), Vec::new());
        assert(r@.query =~= Seq::<(Seq<char>, Seq<char>)>::empty());
        r
    }

    /// The calendar of hot events (`/calendar/events?mode=..`), with the date
    /// and the categories as parameters when given.
    pub fn calendar_events(&self, mode: &str, date: Option<&str>, categories: Option<&str>) -> (r:
        ApiRequest)
        ensures
            r@ == self.request_to(
                "/calendar/events"@,
                param("mode"@, mode@) + opt_param("date"@, opt_str(date)) + opt_param(
                    "categories"@,
                    opt_str(categories),
                ),
            ),
    {
        let mut params: Vec<(String, String)> = Vec::new();
        params.push((String::from_str("mode"), String::from_str(mode)));
        let ghost first = params_view(params@);
        if let Some(d) = date {
            params.push((String::from_str("date"), String::from_str(d)));
        }
        let ghost second = params_view(params@);
        if let Some(c) = categories {
            params.push((String::from_str("categories"), String::from_str(c)));
        }
        assert(first =~= param("mode"@, mode@));
        assert(second =~= param("mode"@, mode@) + opt_param("date"@, opt_str(date)));
        let r = self.call("/calendar/events", params);
        assert(r@.query =~= param("mode"@, mode@) + opt_param("date"@, opt_str(date)) + opt_param(
            "categories"@,
            opt_str(categories),
        ));
        r
    }
}

} // verus!
