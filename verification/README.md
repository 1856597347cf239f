# tas_agent

The certificate lifecycle of an agent that runs inside a trusted execution
environment: it asks the TEE Attestation Service for an X.509 certificate with a
signing request and evidence that is bound to it, and later renews that
certificate with the same key. EXPERIMENTAL: not for production use.

`src/` is the library. What it computes is stated in contracts and proved:

- `settings` — what a run is asked to do, of flags and configuration;
- `common_name`, `san`, `ip`, `ip_text` — the names in a signing request;
- `keygen`, `der`, `csr` — the key and the PKCS#10 request;
- `json`, `gpu`, `report_data` — GPU evidence and the report data;
- `flow` — the certification flow as a state machine;
- `runs` — what holds of every run of it;
- `text`, `outcome` — shared helpers.

`app/` does the work that the flow asks for: it reads and writes files, and asks
the service and the platform through the `Service` trait.

`tests/` runs the library with the crates that it is linked with.
