# knowledgebase

A document knowledge base service. Uploaded documents are stored in an S3
compatible object store; the library splits document text into pages and
builds a tree index per page; an agent answers questions by listing
documents, searching their indexes and reading pages. The background loop
that would feed uploaded documents through page splitting and indexing is
not part of this crate.

- `src/` is the verified library (Verus): text primitives (`text`), decimal
  numbers (`numbers`), document ids (`ids`), page splitting and tree indexes
  (`indexer`), errors and their HTTP answers (`error`), admin authentication
  (`auth`), configuration (`config`), upload decisions (`documents`), the
  object store client (`storage`) and the agent's tools and answers (`rag`).
- `app/` is the HTTP server around it: routes, database queries, object store
  transfers and the agent runtime.
- `tests/` exercises the library on concrete values.
