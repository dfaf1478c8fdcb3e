# order_desk

The back end of a small canteen: a menu of products and the orders placed
against it, served over HTTP behind JWT authorization.

- `src/` is the verified library: reading the bearer token out of the
  `Authorization` header, checking its signature and accepting or refusing
  its claims (`auth`), the idempotency cache in front of the idempotent
  requests (`cache`), the subject filter
  in front of the admin routes and the parsing of the admin list (`filter`),
  the assembly of orders from database rows and the checks on a new order
  (`orders`), the products and orders themselves (`model`), the base64 form
  of product images (`image`), the errors answered to clients (`error`) and
  the shared handle on read-only state (`pointer`).
- `app/` is the server around it: actix-web routing and middleware, the
  MySQL queries, JSON forms of the types, the daily
  wipe at midnight and the signal handling.
- `tests/` exercises the library on concrete values.
